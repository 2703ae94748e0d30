use vstd::prelude::*;

verus! {

/// The commands the chat surface accepts.  The surface itself parses
/// message text and carries answers; it hands the library only the
/// argument strings held here.
pub enum Command {
    /// Dump partitions from an archive address.
    Dump { arg: String },
    /// An alias of Dump.
    Dumper { arg: String },
    /// Patch a boot-type partition.
    Patch { arg: String },
    /// List the partitions of an archive.
    List { arg: String },
    /// Show the usage text.
    Help,
    /// The greeting, answered like Help.
    Start,
    /// The joke command.
    Q,
}

impl Command {
    /// Whether this command carries an argument string.
    pub fn has_arg(&self) -> (r: bool)
        ensures
            r == (self is Dump || self is Dumper || self is Patch || self is List),
    {
        match self {
            Command::Dump { .. } => true,
            Command::Dumper { .. } => true,
            Command::Patch { .. } => true,
            Command::List { .. } => true,
            Command::Help => false,
            Command::Start => false,
            Command::Q => false,
        }
    }
}

} // verus!
