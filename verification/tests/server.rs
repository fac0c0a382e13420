use file_transfer::commands::Commands;
use file_transfer::server::{connection_action, delete_reply, listing_text, request_path, split_upload_head, storage_path, upload_head, upload_path, upload_step, ConnectionAction, NameError, Reply, UploadStep};
use file_transfer::text::split_lines;
use file_transfer::wire::ReadEvent;

#[test]
fn reply_texts() {
    assert_eq!(Reply::FileMissing.text(), "O arquivo não existe.");
    assert_eq!(Reply::NameUnreadable.text(), "Erro ao ler nome de arquivo!");
    assert_eq!(Reply::Deleted.text(), "Arquivo excluido com sucesso.");
    assert_eq!(Reply::DeleteFailed.text(), "Não foi possivel excluir o arquivo.");
    assert_eq!(Reply::UploadStored.text(), "Arquivo lido com sucesso.");
    assert_eq!(Reply::UploadFailed.text(), "Erro ao ler arquivo!");
    assert_eq!(Reply::UploadReceived.text(), "Arquivo recebido com sucesso");
    assert_eq!(Reply::InvalidCommand.text(), "Comando inválido!");
    assert_eq!(Reply::ListingFailed.text(), "Servidor encontrou um erro ao ler o diretório de arquivos!");
    assert_eq!(Reply::ServerFull.text(), "Servidor está na capacidade maxima!");
}

#[test]
fn files_live_under_arquivos() {
    assert_eq!(storage_path("a.txt"), "./arquivos/a.txt");
    assert_eq!(storage_path(""), "./arquivos/");
}

#[test]
fn request_names() {
    assert_eq!(request_path(b"x.bin"), Ok(String::from("./arquivos/x.bin")));
    assert_eq!(request_path(b""), Err(NameError::Missing));
    assert_eq!(request_path(&[0xff]), Err(NameError::NotUtf8));
}

#[test]
fn upload_line_names_the_file() {
    assert_eq!(upload_path("doc.txt\n"), Some(String::from("./arquivos/doc.txt")));
    assert_eq!(upload_path("doc.txt\r\n"), Some(String::from("./arquivos/doc.txt")));
    assert_eq!(upload_path("doc.txt"), Some(String::from("./arquivos/doc.txt")));
    assert_eq!(upload_path(""), None);
}

#[test]
fn delete_replies() {
    assert_eq!(delete_reply(false, false), Reply::FileMissing);
    assert_eq!(delete_reply(false, true), Reply::FileMissing);
    assert_eq!(delete_reply(true, true), Reply::Deleted);
    assert_eq!(delete_reply(true, false), Reply::DeleteFailed);
}

#[test]
fn connection_steps() {
    assert_eq!(connection_action(ReadEvent::Received(0), 4), ConnectionAction::Close);
    assert_eq!(connection_action(ReadEvent::Received(1), 0), ConnectionAction::Serve(Commands::List));
    assert_eq!(connection_action(ReadEvent::Received(1), 3), ConnectionAction::Serve(Commands::Download));
    assert_eq!(connection_action(ReadEvent::Received(1), 4), ConnectionAction::CloseUnknown);
    assert_eq!(connection_action(ReadEvent::Received(1), 77), ConnectionAction::CloseUnknown);
    assert_eq!(connection_action(ReadEvent::Failed, 0), ConnectionAction::Reject);
}

#[test]
fn sent_commands_are_served_as_sent() {
    for c in [Commands::List, Commands::Upload, Commands::Delete, Commands::Download] {
        assert_eq!(connection_action(ReadEvent::Received(1), u8::from(c)), ConnectionAction::Serve(c));
    }
}

#[test]
fn listing_is_names_with_newlines() {
    let names = vec![String::from("a.txt"), String::from("b c"), String::new()];
    assert_eq!(listing_text(&names), "a.txt\nb c\n\n");
    assert_eq!(listing_text(&[]), "");
}

#[test]
fn client_reads_back_the_listing() {
    let names = vec![String::from("a.txt"), String::from("relatório.pdf"), String::from("z")];
    assert_eq!(split_lines(&listing_text(&names)), names);
}

#[test]
fn upload_head_splits_at_first_zero() {
    assert_eq!(split_upload_head(b"ab\0cd\0e"), (b"ab".to_vec(), b"cd\0e".to_vec()));
    assert_eq!(split_upload_head(b"\0x"), (vec![], b"x".to_vec()));
    assert_eq!(split_upload_head(b"name"), (b"name".to_vec(), b"name".to_vec()));
    assert_eq!(split_upload_head(b"name\0"), (b"name".to_vec(), vec![]));
}

#[test]
fn upload_head_reads_name_and_content() {
    match upload_head(b"f.txt\0hello") {
        Ok(h) => {
            assert_eq!(h.path, "./arquivos/f.txt");
            assert_eq!(h.content, b"hello".to_vec());
        }
        Err(e) => panic!("{:?}", e),
    }
    assert!(matches!(upload_head(b""), Err(NameError::Missing)));
    assert!(matches!(upload_head(&[0xff, 0, 1]), Err(NameError::NotUtf8)));
}

#[test]
fn upload_steps() {
    assert_eq!(upload_step(ReadEvent::Received(0)), UploadStep::Answer(Reply::UploadReceived));
    assert_eq!(upload_step(ReadEvent::Received(12)), UploadStep::Write(12));
    assert_eq!(upload_step(ReadEvent::Failed), UploadStep::Answer(Reply::UploadFailed));
}
