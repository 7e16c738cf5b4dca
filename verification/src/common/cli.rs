use vstd::prelude::*;

verus! {

/// What the program was asked to do on its command line.
#[derive(Debug, Copy, Clone)]
pub struct CliArgs {
    /// Measure and print profiling information.
    pub profile: bool,
    /// Enable fluid simulation.
    pub fluids: bool,
    /// Which user interface draws the game.
    pub ui: UiBackend,
}

/// The user interfaces that can draw the game.
#[derive(Debug, Copy, Clone, PartialEq, Eq, Structural)]
pub enum UiBackend {
    Macroquad,
    Egui,
}

/// The backend a name stands for: "mq" or "macroquad", or "egui"; for another name, the
/// message "error: unknown UiBackend " followed by the name.
pub open spec fn spec_parse_ui_backend(name: Seq<char>) -> Result<UiBackend, Seq<char>> {
    if name == "mq"@ || name == "macroquad"@ {
        Ok(UiBackend::Macroquad)
    } else if name == "egui"@ {
        Ok(UiBackend::Egui)
    } else {
        Err("error: unknown UiBackend "@ + name)
    }
}

/// Reads the name of a backend.
pub fn parse_ui_backend(name: &str) -> (result: Result<UiBackend, String>)
    ensures
        match (result, spec_parse_ui_backend(name@)) {
            (Ok(backend), Ok(expected)) => backend == expected,
            (Err(message), Err(expected)) => message@ == expected,
            _ => false,
        },
{
    let given = String::from_str(name);
    if given == String::from_str("mq") || given == String::from_str("macroquad") {
        Ok(UiBackend::Macroquad)
    } else if given == String::from_str("egui") {
        Ok(UiBackend::Egui)
    } else {
        let mut message = String::from_str("error: unknown UiBackend ");
        message.append(name);
        Err(message)
    }
}

impl std::str::FromStr for UiBackend {
    type Err = String;

    fn from_str(s: &str) -> (result: Result<UiBackend, String>)
        ensures
            match (result, spec_parse_ui_backend(s@)) {
                (Ok(backend), Ok(expected)) => backend == expected,
                (Err(message), Err(expected)) => message@ == expected,
                _ => false,
            },
    {
        parse_ui_backend(s)
    }
}

} // verus!
