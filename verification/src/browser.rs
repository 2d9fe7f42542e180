//! Which program opens a URL in the user's browser, by platform.

use vstd::prelude::*;

verus! {

/// The platforms that open URLs differently.
#[derive(Debug, Clone, Copy, PartialEq, Eq, Structural)]
pub enum Platform {
    MacOs,
    Windows,
    Other,
}

/// The launcher program and the arguments that go before the URL: `open` on
/// macOS, `cmd /c start ""` on Windows, `xdg-open` elsewhere.
pub fn launcher(platform: Platform) -> (launch: (&'static str, Vec<&'static str>))
    ensures
        match platform {
            Platform::MacOs => launch.0@ == "open"@ && launch.1@.len() == 0,
            Platform::Windows => launch.0@ == "cmd"@ && launch.1@.len() == 3 && launch.1@[0]@ == "/c"@
                && launch.1@[1]@ == "start"@ && launch.1@[2]@ == ""@,
            Platform::Other => launch.0@ == "xdg-open"@ && launch.1@.len() == 0,
        },
{
    match platform {
        Platform::MacOs => ("open", Vec::new()),
        Platform::Windows => {
            let mut args: Vec<&'static str> = Vec::new();
            args.push("/c");
            args.push("start");
            args.push("");
            ("cmd", args)
        },
        Platform::Other => ("xdg-open", Vec::new()),
    }
}

} // verus!
