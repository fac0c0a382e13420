use file_transfer::commands::Commands;

#[test]
fn command_bytes_are_fixed() {
    assert_eq!(u8::from(Commands::List), 0);
    assert_eq!(u8::from(Commands::Upload), 1);
    assert_eq!(u8::from(Commands::Delete), 2);
    assert_eq!(u8::from(Commands::Download), 3);
    assert_eq!(u8::from(Commands::Unknown), 4);
}

#[test]
fn bytes_read_as_commands() {
    let c: Commands = 0u8.into();
    assert_eq!(c, Commands::List);
    let c: Commands = 1u8.into();
    assert_eq!(c, Commands::Upload);
    let c: Commands = 2u8.into();
    assert_eq!(c, Commands::Delete);
    let c: Commands = 3u8.into();
    assert_eq!(c, Commands::Download);
    let c: Commands = 4u8.into();
    assert_eq!(c, Commands::Unknown);
    let c: Commands = 200u8.into();
    assert_eq!(c, Commands::Unknown);
}

#[test]
fn every_command_roundtrips_through_its_byte() {
    for c in [Commands::List, Commands::Upload, Commands::Delete, Commands::Download, Commands::Unknown] {
        let b = u8::from(c);
        assert_eq!(Commands::from(b), c);
    }
}

#[test]
fn every_byte_roundtrips_or_becomes_unknown() {
    for b in 0u8..=255 {
        let back = u8::from(Commands::from(b));
        if b <= 4 {
            assert_eq!(back, b);
        } else {
            assert_eq!(back, 4);
        }
    }
}
