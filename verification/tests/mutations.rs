use fileboard::config::{Config, ServerConfig};
use fileboard::error::{ErrorKind, GatewayError, Operation};
use fileboard::filemove::{
    create_dir, create_dir_step, del, del_root, mv, CreateAction, CreateEvent, CreatePhase,
    MoveRequest, RelocAction, RelocEvent, RelocPhase,
};
use fileboard::upload::{upload, UploadAction, UploadEvent};

#[test]
fn upload_onto_an_existing_file_is_a_conflict() {
    let mut s = upload("docs", "/srv", "http://h").ok().unwrap();
    assert_eq!(s.offer(Some("a.txt")), UploadAction::Probe);
    assert_eq!(s.pending_path(), "/srv/docs/a.txt");
    assert_eq!(s.step(UploadEvent::Present), UploadAction::Fail(ErrorKind::Conflict));
    assert_eq!(s.count(), 0);
    assert_eq!(s.success_body(), None);
    assert_eq!(s.step(UploadEvent::Absent), UploadAction::Fail(ErrorKind::InvalidInput));
    assert_eq!(s.offer(Some("b.txt")), UploadAction::Fail(ErrorKind::InvalidInput));
}

#[test]
fn a_conflict_on_the_second_part_ends_the_upload() {
    let mut s = upload("", "/srv", "http://h").ok().unwrap();
    assert_eq!(s.offer(Some("a.txt")), UploadAction::Probe);
    assert_eq!(s.step(UploadEvent::Absent), UploadAction::Write);
    assert_eq!(s.step(UploadEvent::Written), UploadAction::NextPart);
    assert_eq!(s.success_body(), None);
    assert_eq!(s.offer(Some("b.txt")), UploadAction::Probe);
    assert_eq!(s.step(UploadEvent::Present), UploadAction::Fail(ErrorKind::Conflict));
    assert_eq!(s.success_body(), None);
    assert_eq!(s.step(UploadEvent::End), UploadAction::Fail(ErrorKind::InvalidInput));
    assert_eq!(s.success_body(), None);
    assert_eq!(s.count(), 1);
}

#[test]
fn a_report_after_the_end_fails_the_upload() {
    let mut s = upload("", "/srv", "http://h").ok().unwrap();
    s.offer(Some("a.txt"));
    s.step(UploadEvent::Absent);
    s.step(UploadEvent::Written);
    assert_eq!(s.step(UploadEvent::End), UploadAction::Succeed);
    assert!(s.success_body().is_some());
    assert_eq!(s.step(UploadEvent::End), UploadAction::Fail(ErrorKind::InvalidInput));
    assert_eq!(s.success_body(), None);
}

#[test]
fn upload_of_one_file_reports_its_url() {
    let mut s = upload("/pics/2024/", "/srv", "http://h:3000").ok().unwrap();
    assert_eq!(s.offer(Some("cat.png")), UploadAction::Probe);
    assert_eq!(s.pending_path(), "/srv/pics/2024/cat.png");
    assert_eq!(s.step(UploadEvent::Absent), UploadAction::Write);
    assert_eq!(s.step(UploadEvent::Written), UploadAction::NextPart);
    assert_eq!(s.step(UploadEvent::End), UploadAction::Succeed);
    assert_eq!(s.count(), 1);
    assert_eq!(s.primary_url(), Some("http://h:3000/pics/2024/cat.png".to_string()));
    assert_eq!(
        s.success_body(),
        Some("{\"image_url\":\"http://h:3000/pics/2024/cat.png\"}".to_string())
    );
}

#[test]
fn upload_into_the_root_reports_a_url_without_a_directory() {
    let mut s = upload("", "/srv", "http://h").ok().unwrap();
    s.offer(Some("a.txt"));
    s.step(UploadEvent::Absent);
    s.step(UploadEvent::Written);
    assert_eq!(s.primary_url(), Some("http://h/a.txt".to_string()));
}

#[test]
fn upload_of_two_files_reports_the_first_url_and_a_generic_body() {
    let mut s = upload("docs", "/srv", "http://h").ok().unwrap();
    assert_eq!(s.offer(Some("one.txt")), UploadAction::Probe);
    assert_eq!(s.step(UploadEvent::Absent), UploadAction::Write);
    assert_eq!(s.step(UploadEvent::Written), UploadAction::NextPart);
    assert_eq!(s.offer(Some("two.txt")), UploadAction::Probe);
    assert_eq!(s.pending_path(), "/srv/docs/two.txt");
    assert_eq!(s.step(UploadEvent::Absent), UploadAction::Write);
    assert_eq!(s.step(UploadEvent::Written), UploadAction::NextPart);
    assert_eq!(s.step(UploadEvent::End), UploadAction::Succeed);
    assert_eq!(s.count(), 2);
    assert_eq!(s.created_name(0), Some("one.txt".to_string()));
    assert_eq!(s.created_name(1), Some("two.txt".to_string()));
    assert_eq!(s.created_name(2), None);
    assert_eq!(s.primary_url(), Some("http://h/docs/one.txt".to_string()));
    assert_eq!(s.success_body(), Some("Files uploaded sussecfully".to_string()));
}

#[test]
fn upload_without_a_part_fails() {
    let mut s = upload("docs", "/srv", "http://h").ok().unwrap();
    assert_eq!(s.step(UploadEvent::End), UploadAction::Fail(ErrorKind::NoFileUploaded));
    assert_eq!(s.primary_url(), None);
}

#[test]
fn upload_failures() {
    let mut s = upload("docs", "/srv", "http://h").ok().unwrap();
    s.offer(Some("a.txt"));
    s.step(UploadEvent::Absent);
    assert_eq!(s.step(UploadEvent::WriteFailed), UploadAction::Fail(ErrorKind::IOFailure));
    let mut t = upload("docs", "/srv", "http://h").ok().unwrap();
    assert_eq!(t.step(UploadEvent::Malformed), UploadAction::Fail(ErrorKind::InvalidInput));
    assert!(matches!(upload("../out", "/srv", "http://h"), Err(GatewayError::InvalidPath)));
}

#[test]
fn upload_refuses_names_that_are_paths() {
    for bad in ["../evil", "a/b", "..", ".", "", "x\0"] {
        let mut s = upload("docs", "/srv", "http://h").ok().unwrap();
        assert_eq!(s.offer(Some(bad)), UploadAction::Fail(ErrorKind::InvalidInput));
    }
}

#[test]
fn upload_without_a_name_gets_a_fresh_one() {
    let mut s = upload("docs", "/srv", "http://h").ok().unwrap();
    assert_eq!(s.offer(None), UploadAction::Probe);
    let first = s.pending_path();
    assert!(first.starts_with("/srv/docs/"));
    assert_eq!(first.len(), "/srv/docs/".len() + 36);
    let name = &first["/srv/docs/".len()..];
    assert!(name.chars().all(|c| c == '-' || c.is_ascii_digit() || ('a'..='f').contains(&c)));
    assert_eq!(s.step(UploadEvent::Absent), UploadAction::Write);
    assert_eq!(s.step(UploadEvent::Written), UploadAction::NextPart);
    assert_eq!(s.offer(None), UploadAction::Probe);
    assert_ne!(s.pending_path(), first);
}

fn request(to: &str) -> MoveRequest {
    MoveRequest { destination: to.to_string() }
}

#[test]
fn move_creates_the_missing_parent_and_renames() {
    let plan = mv("notes.txt", &request("archive/notes.txt"), "/srv").ok().unwrap();
    assert_eq!(plan.source_path(), "/srv/notes.txt");
    assert_eq!(plan.destination_path(), "/srv/archive/notes.txt");
    assert_eq!(plan.parent_path(), Some("/srv/archive"));
    let p = plan.start();
    assert_eq!(p, RelocPhase::Source);
    let (p, a) = plan.step(p, RelocEvent::Present);
    assert_eq!(a, RelocAction::ProbeParent);
    let (p, a) = plan.step(p, RelocEvent::Absent);
    assert_eq!(a, RelocAction::CreateParent);
    let (p, a) = plan.step(p, RelocEvent::Succeeded);
    assert_eq!(a, RelocAction::ProbeDestination);
    let (p, a) = plan.step(p, RelocEvent::Absent);
    assert_eq!(a, RelocAction::Rename);
    let (p, a) = plan.step(p, RelocEvent::Succeeded);
    assert_eq!((p, a), (RelocPhase::Done, RelocAction::Succeed));
}

#[test]
fn a_repeated_move_finds_no_source() {
    let plan = mv("notes.txt", &request("archive/notes.txt"), "/srv").ok().unwrap();
    assert_eq!(
        plan.step(plan.start(), RelocEvent::Absent),
        (RelocPhase::Done, RelocAction::Fail(ErrorKind::NotFound))
    );
}

#[test]
fn move_onto_an_existing_destination_is_a_conflict() {
    let plan = mv("/a.txt", &request("b.txt"), "/srv").ok().unwrap();
    assert_eq!(plan.parent_path(), Some("/srv"));
    let (p, a) = plan.step(RelocPhase::Source, RelocEvent::Present);
    assert_eq!((p, a), (RelocPhase::Parent, RelocAction::ProbeParent));
    let (p, a) = plan.step(p, RelocEvent::Present);
    assert_eq!((p, a), (RelocPhase::Destination, RelocAction::ProbeDestination));
    assert_eq!(
        plan.step(p, RelocEvent::Present),
        (RelocPhase::Done, RelocAction::Fail(ErrorKind::Conflict))
    );
}

#[test]
fn move_failures_of_the_file_system() {
    let plan = mv("a", &request("d/b"), "/srv").ok().unwrap();
    assert_eq!(
        plan.step(RelocPhase::CreatingParent, RelocEvent::Failed),
        (RelocPhase::Done, RelocAction::Fail(ErrorKind::IOFailure))
    );
    assert_eq!(
        plan.step(RelocPhase::Renaming, RelocEvent::Failed),
        (RelocPhase::Done, RelocAction::Fail(ErrorKind::IOFailure))
    );
    assert_eq!(
        plan.step(RelocPhase::Done, RelocEvent::Succeeded),
        (RelocPhase::Done, RelocAction::Fail(ErrorKind::InvalidInput))
    );
}

#[test]
fn move_out_of_the_root_is_refused() {
    assert!(matches!(mv("../a", &request("b"), "/srv"), Err(GatewayError::InvalidPath)));
    assert!(matches!(mv("a", &request("../../b"), "/srv"), Err(GatewayError::InvalidPath)));
}

#[test]
fn move_to_the_root_has_no_parent_to_create() {
    let plan = mv("a", &request(""), "/srv").ok().unwrap();
    assert_eq!(plan.destination_path(), "/srv");
    assert_eq!(plan.parent_path(), None);
    assert_eq!(
        plan.step(RelocPhase::Source, RelocEvent::Present),
        (RelocPhase::Destination, RelocAction::ProbeDestination)
    );
}

#[test]
fn delete_flattens_into_the_trash() {
    let plan = del("sub/report.pdf", "/srv", "/var/trash").ok().unwrap();
    assert_eq!(plan.source_path(), "/srv/sub/report.pdf");
    assert_eq!(plan.destination_path(), "/var/trash/report.pdf");
    assert_eq!(plan.parent_path(), Some("/var/trash"));
    let deep = del("/a/b/c/d/report.pdf", "/srv", "/var/trash").ok().unwrap();
    assert_eq!(deep.destination_path(), "/var/trash/report.pdf");
    let top = del("report.pdf", "/srv", "/var/trash").ok().unwrap();
    assert_eq!(top.destination_path(), "/var/trash/report.pdf");
}

#[test]
fn delete_into_an_occupied_trash_name_is_a_conflict() {
    let plan = del("sub/report.pdf", "/srv", "/var/trash").ok().unwrap();
    let (p, _) = plan.step(plan.start(), RelocEvent::Present);
    let (p, a) = plan.step(p, RelocEvent::Present);
    assert_eq!(a, RelocAction::ProbeDestination);
    assert_eq!(
        plan.step(p, RelocEvent::Present),
        (RelocPhase::Done, RelocAction::Fail(ErrorKind::Conflict))
    );
}

#[test]
fn delete_of_the_root_or_out_of_it_is_refused() {
    assert!(matches!(del_root("/srv", "/var/trash"), Err(GatewayError::InvalidPath)));
    assert!(matches!(del("", "/srv", "/var/trash"), Err(GatewayError::InvalidPath)));
    assert!(matches!(del("a/..", "/srv", "/var/trash"), Err(GatewayError::InvalidPath)));
    assert!(matches!(del("../x", "/srv", "/var/trash"), Err(GatewayError::InvalidPath)));
}

#[test]
fn create_dir_plans_a_path_under_the_root() {
    assert_eq!(create_dir("a/new", "/srv").ok(), Some("/srv/a/new".to_string()));
    assert!(matches!(create_dir("../new", "/srv"), Err(GatewayError::InvalidPath)));
}

#[test]
fn statuses_by_operation() {
    assert_eq!(GatewayError::InvalidPath.status(Operation::Read), 404);
    assert_eq!(GatewayError::NotFound.status(Operation::Read), 404);
    assert_eq!(GatewayError::ListingFailed.status(Operation::Read), 404);
    assert_eq!(GatewayError::IOFailure("x".to_string()).status(Operation::Read), 500);
    assert_eq!(GatewayError::Conflict.status(Operation::Upload), 400);
    assert_eq!(GatewayError::NoFileUploaded.status(Operation::Upload), 400);
    assert_eq!(GatewayError::IOFailure("x".to_string()).status(Operation::CreateDir), 400);
    assert_eq!(GatewayError::NotFound.status(Operation::Move), 404);
    assert_eq!(GatewayError::Conflict.status(Operation::Move), 409);
    assert_eq!(GatewayError::IOFailure("x".to_string()).status(Operation::Move), 500);
    assert_eq!(GatewayError::InvalidPath.status(Operation::Move), 400);
    assert_eq!(GatewayError::NotFound.status(Operation::Delete), 404);
    assert_eq!(GatewayError::Conflict.status(Operation::Delete), 409);
    assert_eq!(GatewayError::IOFailure("x".to_string()).status(Operation::Delete), 500);
}

#[test]
fn error_kinds() {
    assert_eq!(GatewayError::IOFailure("disk full".to_string()).kind(), ErrorKind::IOFailure);
    assert_eq!(GatewayError::Conflict.kind(), ErrorKind::Conflict);
    assert!(matches!(
        GatewayError::of_kind(ErrorKind::IOFailure, "disk full".to_string()),
        GatewayError::IOFailure(cause) if cause == "disk full"
    ));
    assert!(matches!(
        GatewayError::of_kind(ErrorKind::NotFound, String::new()),
        GatewayError::NotFound
    ));
}

#[test]
fn default_configuration() {
    let c = Config::default();
    assert_eq!(c.server.port, 3000);
    assert_eq!(c.server.wwwroot, ".");
    assert!(!c.server.allow_public);
    assert_eq!(c.server.host, "http://localhost:3000");
    assert_eq!(c.server.max_file_size, 20 * 1024 * 1024);
    assert_eq!(c.server.bind_address(), [127, 0, 0, 1]);
}

#[test]
fn configuration_cell() {
    let mut cell: Option<Config> = None;
    assert!(fileboard::config::get(&cell).is_none());
    let server = ServerConfig {
        port: 8080,
        wwwroot: "/srv".to_string(),
        allow_public: true,
        host: "http://example.org".to_string(),
        max_file_size: 1024,
        trash_can: "/var/trash".to_string(),
    };
    fileboard::config::set(&mut cell, Config::new(server));
    let c = fileboard::config::get(&cell).unwrap();
    assert_eq!(c.server.port, 8080);
    assert_eq!(c.server.wwwroot, "/srv");
    assert_eq!(c.server.host, "http://example.org");
    assert_eq!(c.server.max_file_size, 1024);
    assert_eq!(c.server.trash_can, "/var/trash");
    assert_eq!(c.server.bind_address(), [0, 0, 0, 0]);
    fileboard::config::set(&mut cell, Config::default());
    assert_eq!(fileboard::config::get(&cell).unwrap().server.port, 3000);
}

#[test]
fn upload_into_a_directory_that_leads_outside_is_refused() {
    let mut s = upload("docs", "/srv", "http://h").ok().unwrap();
    assert_eq!(s.target_dir(), "/srv/docs");
    assert_eq!(s.offer(Some("a.txt")), UploadAction::Probe);
    assert_eq!(s.pending_name(), "a.txt");
    assert_eq!(s.step(UploadEvent::Outside), UploadAction::Fail(ErrorKind::InvalidPath));
    assert_eq!(s.step(UploadEvent::Absent), UploadAction::Fail(ErrorKind::InvalidInput));
    assert_eq!(s.count(), 0);
    let mut t = upload("docs", "/srv", "http://h").ok().unwrap();
    assert_eq!(t.step(UploadEvent::Outside), UploadAction::Fail(ErrorKind::InvalidInput));
}

#[test]
fn relocation_through_a_link_that_leads_outside_is_refused() {
    let plan = mv("a", &request("d/b"), "/srv").ok().unwrap();
    let refused = (RelocPhase::Done, RelocAction::Fail(ErrorKind::InvalidPath));
    assert_eq!(plan.step(RelocPhase::Source, RelocEvent::Outside), refused);
    assert_eq!(plan.step(RelocPhase::Parent, RelocEvent::Outside), refused);
    assert_eq!(plan.step(RelocPhase::Destination, RelocEvent::Outside), refused);
    assert_eq!(
        plan.step(RelocPhase::Renaming, RelocEvent::Outside),
        (RelocPhase::Done, RelocAction::Fail(ErrorKind::InvalidInput))
    );
    assert_eq!(
        plan.step(RelocPhase::CreatingParent, RelocEvent::Outside),
        (RelocPhase::Done, RelocAction::Fail(ErrorKind::InvalidInput))
    );
}

#[test]
fn a_directory_is_created_only_under_the_root() {
    assert_eq!(
        create_dir_step(CreatePhase::Containment, CreateEvent::Inside),
        (CreatePhase::Creating, CreateAction::Create)
    );
    assert_eq!(
        create_dir_step(CreatePhase::Containment, CreateEvent::Outside),
        (CreatePhase::Done, CreateAction::Fail(ErrorKind::InvalidPath))
    );
    assert_eq!(
        create_dir_step(CreatePhase::Creating, CreateEvent::Succeeded),
        (CreatePhase::Done, CreateAction::Succeed)
    );
    assert_eq!(
        create_dir_step(CreatePhase::Creating, CreateEvent::Failed),
        (CreatePhase::Done, CreateAction::Fail(ErrorKind::IOFailure))
    );
    assert_eq!(
        create_dir_step(CreatePhase::Creating, CreateEvent::Inside),
        (CreatePhase::Done, CreateAction::Fail(ErrorKind::InvalidInput))
    );
    assert_eq!(
        create_dir_step(CreatePhase::Done, CreateEvent::Inside),
        (CreatePhase::Done, CreateAction::Fail(ErrorKind::InvalidInput))
    );
}
