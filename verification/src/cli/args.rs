//! What the user asks for on the command line.
use vstd::prelude::*;

verus! {

/// The arguments of the tool.
#[derive(Debug)]
pub struct Cli {
    /// What to do.
    pub command: String,
    /// The entry of the configuration file to do it for.
    pub alias: Option<String>,
    /// Only update new files.
    pub ignore_changes: bool,
    /// Delete files in target that are not in source.
    pub delete: bool,
}

/// What the tool can do.
#[derive(Debug, Clone, Copy, PartialEq, Eq, Structural)]
pub enum Command {
    /// List the devices.
    Devices,
    /// Show the space on some devices.
    Storage,
    /// Copy to the device.
    Push,
    /// Copy from the device.
    Pull,
}

/// The command of that name; `None` where there is none.
pub open spec fn command_named(name: Seq<char>) -> Option<Command> {
    if name == "devices"@ {
        Some(Command::Devices)
    } else if name == "storage"@ {
        Some(Command::Storage)
    } else if name == "push"@ {
        Some(Command::Push)
    } else if name == "pull"@ {
        Some(Command::Pull)
    } else {
        None
    }
}

impl Cli {
    /// Which command the user asks for.
    pub fn chosen_command(&self) -> (res: Option<Command>)
        ensures
            res == command_named(self.command@),
    {
        if self.command == "devices".to_owned() {
            Some(Command::Devices)
        } else if self.command == "storage".to_owned() {
            Some(Command::Storage)
        } else if self.command == "push".to_owned() {
            Some(Command::Push)
        } else if self.command == "pull".to_owned() {
            Some(Command::Pull)
        } else {
            None
        }
    }
}

/// Each command has one name, and no other text names a command.
pub proof fn law_command_names(name: Seq<char>)
    ensures
        command_named(name) == Some(Command::Devices) <==> name == seq![
            'd',
            'e',
            'v',
            'i',
            'c',
            'e',
            's',
        ],
        command_named(name) == Some(Command::Storage) <==> name == seq![
            's',
            't',
            'o',
            'r',
            'a',
            'g',
            'e',
        ],
        command_named(name) == Some(Command::Push) <==> name == seq!['p', 'u', 's', 'h'],
        command_named(name) == Some(Command::Pull) <==> name == seq!['p', 'u', 'l', 'l'],
{
    reveal_strlit("devices");
    reveal_strlit("storage");
    reveal_strlit("push");
    reveal_strlit("pull");
    assert("devices"@ =~= seq!['d', 'e', 'v', 'i', 'c', 'e', 's']);
    assert("storage"@ =~= seq!['s', 't', 'o', 'r', 'a', 'g', 'e']);
    assert("push"@ =~= seq!['p', 'u', 's', 'h']);
    assert("pull"@ =~= seq!['p', 'u', 'l', 'l']);
    assert("devices"@[0] == 'd' && "storage"@[0] == 's' && "push"@[0] == 'p' && "pull"@[0] == 'p');
    assert("push"@[2] == 's' && "pull"@[2] == 'l');
}

} // verus!
