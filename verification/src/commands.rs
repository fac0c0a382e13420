use vstd::prelude::*;

verus! {

/// The request kinds of the protocol, each sent as one byte.
#[derive(Debug, Clone, Copy, PartialEq, Eq, Structural)]
pub enum Commands {
    List,
    Upload,
    Delete,
    Download,
    Unknown,
}

/// The byte that stands for a command on the wire.
pub open spec fn command_byte(c: Commands) -> u8 {
    match c {
        Commands::List => 0,
        Commands::Upload => 1,
        Commands::Delete => 2,
        Commands::Download => 3,
        Commands::Unknown => 4,
    }
}

/// The command that a received byte stands for; unknown bytes are `Unknown`.
pub open spec fn command_of_byte(b: u8) -> Commands {
    if b == 0 {
        Commands::List
    } else if b == 1 {
        Commands::Upload
    } else if b == 2 {
        Commands::Delete
    } else if b == 3 {
        Commands::Download
    } else {
        Commands::Unknown
    }
}

impl From<Commands> for u8 {
    fn from(m: Commands) -> (b: u8) {
        match m {
            Commands::List => 0,
            Commands::Upload => 1,
            Commands::Delete => 2,
            Commands::Download => 3,
            Commands::Unknown => 4,
        }
    }
}

impl vstd::std_specs::convert::FromSpecImpl<Commands> for u8 {
    open spec fn obeys_from_spec() -> bool {
        true
    }

    open spec fn from_spec(m: Commands) -> u8 {
        command_byte(m)
    }
}

impl From<u8> for Commands {
    fn from(b: u8) -> (c: Commands) {
        match b {
            0 => Commands::List,
            1 => Commands::Upload,
            2 => Commands::Delete,
            3 => Commands::Download,
            _ => Commands::Unknown,
        }
    }
}

impl vstd::std_specs::convert::FromSpecImpl<u8> for Commands {
    open spec fn obeys_from_spec() -> bool {
        true
    }

    open spec fn from_spec(b: u8) -> Commands {
        command_of_byte(b)
    }
}

/// Every command survives being sent as its byte and read back.
pub proof fn lemma_command_roundtrip(c: Commands)
    ensures
        command_of_byte(command_byte(c)) == c,
{
}

/// A byte read back as a command and sent again is unchanged when it names a
/// command (0 to 4); every other byte comes back as 4, the byte of `Unknown`.
pub proof fn lemma_byte_roundtrip(b: u8)
    ensures
        b <= 4 ==> command_byte(command_of_byte(b)) == b,
        b > 4 ==> command_byte(command_of_byte(b)) == 4,
{
}

} // verus!
