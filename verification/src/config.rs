//! Invocation configuration: the input and output paths, taken from the
//! argument list.

use vstd::prelude::*;
use vstd::string::*;

verus! {

/// The two paths a conversion needs.
pub struct Config {
    pub input_file: String,
    pub output_file: String,
}

impl Config {
    /// Builds a configuration from the argument list (the first element
    /// being the program name): the input path then the output path.
    /// Fails, naming the missing path, when either is absent.
    pub fn build(args: Vec<String>) -> (r: Result<Config, &'static str>)
        ensures
            r is Ok <==> args@.len() >= 3,
            r is Ok ==> r->Ok_0.input_file@ == args@[1]@ && r->Ok_0.output_file@ == args@[2]@,
            args@.len() < 2 ==> r is Err && r->Err_0@ == "Didn't get an input file."@,
            args@.len() == 2 ==> r is Err && r->Err_0@ == "Didn't get an output file."@,
    {
        if args.len() < 2 {
            Err("Didn't get an input file.")
        } else if args.len() < 3 {
            Err("Didn't get an output file.")
        } else {
            Ok(
                Config {
                    input_file: String::from_str(args[1].as_str()),
                    output_file: String::from_str(args[2].as_str()),
                },
            )
        }
    }
}

} // verus!
