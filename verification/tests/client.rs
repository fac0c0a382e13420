use file_transfer::client::{command_of_keyword, file_follows, parse_command, request_header, ClientCommand, DownloadProgress, DownloadStep};
use file_transfer::commands::Commands;
use file_transfer::wire::ReadEvent;

#[test]
fn keywords_name_commands() {
    assert_eq!(command_of_keyword("ls"), ClientCommand::LocalFiles);
    assert_eq!(command_of_keyword("list"), ClientCommand::List);
    assert_eq!(command_of_keyword("upload"), ClientCommand::Upload);
    assert_eq!(command_of_keyword("download"), ClientCommand::Download);
    assert_eq!(command_of_keyword("delete"), ClientCommand::Delete);
    assert_eq!(command_of_keyword("help"), ClientCommand::Help);
    assert_eq!(command_of_keyword("exit"), ClientCommand::Exit);
    assert_eq!(command_of_keyword("LIST"), ClientCommand::Unrecognized);
    assert_eq!(command_of_keyword("lis"), ClientCommand::Unrecognized);
}

#[test]
fn typed_lines_are_case_insensitive() {
    let c = parse_command("UpLoad report.pdf\n");
    assert_eq!(c.command, ClientCommand::Upload);
    assert_eq!(c.argument, Some(String::from("report.pdf")));
    let c = parse_command("  LIST ");
    assert_eq!(c.command, ClientCommand::List);
    assert_eq!(c.argument, None);
    let c = parse_command("EXIT");
    assert_eq!(c.command, ClientCommand::Exit);
}

#[test]
fn blank_and_unknown_lines() {
    let c = parse_command("   \n");
    assert_eq!(c.command, ClientCommand::Blank);
    assert_eq!(c.argument, None);
    let c = parse_command("copy a b");
    assert_eq!(c.command, ClientCommand::Unrecognized);
    assert_eq!(c.argument, Some(String::from("a")));
}

#[test]
fn file_commands_without_a_name() {
    let c = parse_command("delete");
    assert_eq!(c.command, ClientCommand::Delete);
    assert_eq!(c.argument, None);
}

#[test]
fn request_header_is_command_byte_then_name_frame() {
    let h = request_header(Commands::Delete, "a.txt");
    assert_eq!(h, vec![2, 5, 0, 0, 0, 0, 0, 0, 0, b'a', b'.', b't', b'x', b't']);
    let h = request_header(Commands::Download, "");
    assert_eq!(h, vec![3, 0, 0, 0, 0, 0, 0, 0, 0]);
}

#[test]
fn download_status_byte() {
    assert!(file_follows(1));
    assert!(!file_follows(0));
    assert!(!file_follows(2));
}

#[test]
fn download_receives_the_announced_size() {
    let mut p = DownloadProgress::new(10);
    assert!(!p.is_complete());
    assert_eq!(p.on_read(ReadEvent::Received(4)), DownloadStep::Write(4));
    assert_eq!(p.remaining, 6);
    assert_eq!(p.on_read(ReadEvent::Received(6)), DownloadStep::Write(6));
    assert!(p.is_complete());
}

#[test]
fn download_stops_on_close_and_failure() {
    let mut p = DownloadProgress::new(3);
    assert_eq!(p.on_read(ReadEvent::Received(0)), DownloadStep::Stop);
    assert_eq!(p.remaining, 3);
    assert_eq!(p.on_read(ReadEvent::Failed), DownloadStep::Fail);
    assert_eq!(p.remaining, 3);
    assert!(DownloadProgress::new(0).is_complete());
}
