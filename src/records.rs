use vstd::prelude::*;

verus! {

/// Where a building stands, as the native building description gives it.
pub struct BimJsonAddress {
    pub city: String,
    pub street_address: String,
    pub add_info: String,
}

/// Where a building stands, as the legacy export gives it.
pub struct AddressRenga {
    pub city: String,
    pub street_address: String,
    pub add_info: String,
}

impl AddressRenga {
    /// The same address in the native form.
    pub fn into_address(self) -> (r: BimJsonAddress)
        ensures
            r.city@ == self.city@,
            r.street_address@ == self.street_address@,
            r.add_info@ == self.add_info@,
    {
        BimJsonAddress {
            city: self.city,
            street_address: self.street_address,
            add_info: self.add_info,
        }
    }
}

/// What the command line asks for.
pub struct CliParameters {
    pub scenario_file: String,
}

/// How the command line is to be answered.
pub enum CliCommand {
    /// Run the scenario of this file.
    Run(CliParameters),
    /// Print the usage.
    Help,
    /// No argument was given.
    Missing,
}

/// Reads the command line: the first argument after the program name is the
/// scenario file, unless it asks for help.
pub fn read_cli_args(args: &Vec<String>) -> (r: CliCommand)
    ensures
        args@.len() < 2 ==> r is Missing,
        args@.len() >= 2 && (args@[1]@ == "--help"@ || args@[1]@ == "-h"@) ==> r is Help,
        args@.len() >= 2 && !(args@[1]@ == "--help"@ || args@[1]@ == "-h"@) ==> (r matches CliCommand::Run(p)
            && p.scenario_file@ == args@[1]@),
{
    if args.len() < 2 {
        return CliCommand::Missing;
    }
    let first = args[1].as_str();
    if crate::sign::str_equals(first, "--help") || crate::sign::str_equals(first, "-h") {
        return CliCommand::Help;
    }
    CliCommand::Run(CliParameters { scenario_file: first.to_owned() })
}

} // verus!
