use vstd::prelude::*;

pub mod audit;
pub mod cache;
pub mod flight;
pub mod frame;
pub mod matcher;
pub mod message;
pub mod name;
pub mod pipeline;
pub mod speedtest;
pub mod upstream;

verus! {

/// Version string of this library.
pub fn version() -> (r: &'static str)
    ensures
        r@ == "0.1.0"@,
{
    proof {
        reveal_strlit("0.1.0");
    }
    "0.1.0"
}

/// The lines of the start-up banner.
pub fn banner() -> (r: Vec<&'static str>)
    ensures
        r@.len() == 7,
        r@[0]@ == ""@,
        r@[1]@ == "     _____                      _       _____  _   _  _____ "@,
        r@[2]@ == "    / ____|                    | |     |  __ \\| \\ | |/ ____|"@,
        r@[3]@ == "   | (___  _ __ ___   __ _ _ __| |_    | |  | |  \\| | (___  "@,
        r@[4]@ == "    \\___ \\| '_ ` _ \\ / _` | '__| __|   | |  | | . ` |\\___ \\ "@,
        r@[5]@ == "    ____) | | | | | | (_| | |  | |_    | |__| | |\\  |____) |"@,
        r@[6]@ == "   |_____/|_| |_| |_|\\__,_|_|   \\__|   |_____/|_| \\_|_____/ "@,
{
    let mut v: Vec<&'static str> = Vec::new();
    v.push("");
    v.push("     _____                      _       _____  _   _  _____ ");
    v.push("    / ____|                    | |     |  __ \\| \\ | |/ ____|");
    v.push("   | (___  _ __ ___   __ _ _ __| |_    | |  | |  \\| | (___  ");
    v.push("    \\___ \\| '_ ` _ \\ / _` | '__| __|   | |  | | . ` |\\___ \\ ");
    v.push("    ____) | | | | | | (_| | |  | |_    | |__| | |\\  |____) |");
    v.push("   |_____/|_| |_| |_|\\__,_|_|   \\__|   |_____/|_| \\_|_____/ ");
    v
}

} // verus!
