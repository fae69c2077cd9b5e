use mcconsole::stream::{StreamStep, stream_step};
use mcconsole::command::{Output, Reason};
use mcconsole::jobs::list_dir::ListDirJob;
use mcconsole::jobs::modpack_updater::check_version::CheckVersionJob;
use mcconsole::jobs::modpack_updater::list_versions::ListVersionsJob;
use mcconsole::jobs::modpack_updater::log_reader::{LineStep, UpdaterLogReaderJob};
use mcconsole::jobs::modpack_updater::update::{UpdateJob, UpdateMessage};
use mcconsole::jobs::stats_reader::{StatsReaderJob, parse_stats_line};
use mcconsole::jobs::unit_management::{UnitAction, UnitManagementJob, UnitManagementMessage};
use mcconsole::jobs::user_management::Role;
use mcconsole::jobs::user_management::create_user::{CreateUserJob, CreateUserMessage};
use mcconsole::jobs::user_management::delete_user::{DeleteUserJob, DeleteUserMessage};
use mcconsole::jobs::user_management::list_users::{ListUsersJob, ListUsersMessage, line_to_users};
use mcconsole::jobs::user_management::set_role::{SetRoleJob, SetRoleMessage};
use mcconsole::scene::Registrar;

fn strs(v: &[&str]) -> Vec<String> {
    v.iter().map(|s| s.to_string()).collect()
}

fn out(code: i32, stdout: &[u8]) -> Option<Output> {
    Some(Output { code, stdout: stdout.to_vec(), stderr: vec![] })
}

#[test]
fn roles_and_actions_have_names() {
    assert_eq!(Role::Viewer.name(), "viewer");
    assert_eq!(Role::Operator.name(), "operator");
    assert_eq!(Role::Admin.name(), "admin");
    assert_eq!(Role::from("operator".to_string()), Role::Operator);
    assert_eq!(Role::from(Role::Admin.name().to_string()), Role::Admin);
    assert_eq!(UnitAction::from("stop".to_string()), UnitAction::Stop);
    assert_eq!(UnitAction::from("restart".to_string()), UnitAction::Restart);
    assert_eq!(UnitAction::Restart.name(), "restart");
}

#[test]
fn delete_user_job() {
    let job = DeleteUserJob::new("alice");
    let c = job.command();
    assert_eq!(c.program, "pkexec");
    assert_eq!(c.args, strs(&["/usr/local/sbin/mcconsole-usermgmt", "alice"]));
    assert!(matches!(DeleteUserJob::new("a").outcome(None), DeleteUserMessage::Failed(Reason::Internal)));
    assert!(matches!(DeleteUserJob::new("a").outcome(out(15, b"")), DeleteUserMessage::Failed(Reason::NotFound)));
    match DeleteUserJob::new("alice").outcome(out(0, b"")) {
        DeleteUserMessage::Succeeded(u) => assert_eq!(u, "alice"),
        _ => panic!("expected success"),
    }
}

#[test]
fn create_user_job() {
    let job = CreateUserJob::new("bob", Role::Operator, b"ssh-ed25519 AAAA".to_vec());
    let c = job.command();
    assert_eq!(c.args, strs(&["/usr/local/sbin/mcconsole-usermgmt", "bob", "operator"]));
    assert_eq!(job.pubkey, b"ssh-ed25519 AAAA".to_vec());
    assert!(matches!(job.outcome(out(17, b"")), CreateUserMessage::Failed(Reason::Conflict)));
    let job = CreateUserJob::new("bob", Role::Viewer, vec![]);
    assert!(matches!(job.outcome(None), CreateUserMessage::Failed(Reason::Internal)));
    match CreateUserJob::new("bob", Role::Admin, vec![]).outcome(out(0, b"")) {
        CreateUserMessage::Succeeded(u) => assert_eq!(u, "bob"),
        _ => panic!("expected success"),
    }
}

#[test]
fn set_role_job() {
    let job = SetRoleJob::new("carol", Role::Admin);
    assert_eq!(job.command().args, strs(&["/usr/local/sbin/mcconsole-usermgmt", "carol", "admin"]));
    assert!(matches!(SetRoleJob::new("c", Role::Admin).outcome(out(12, b"")), SetRoleMessage::Failed()));
    assert!(matches!(SetRoleJob::new("c", Role::Admin).outcome(None), SetRoleMessage::Failed()));
    match SetRoleJob::new("carol", Role::Viewer).outcome(out(0, b"")) {
        SetRoleMessage::Succeeded(u) => assert_eq!(u, "carol"),
        _ => panic!("expected success"),
    }
}

#[test]
fn unit_management_job() {
    let job = UnitManagementJob::new(UnitAction::Stop);
    assert_eq!(job.command().args, strs(&["/usr/local/sbin/mcconsole-notify", "stop"]));
    assert!(matches!(job.outcome(None), UnitManagementMessage::Failed(Reason::Internal)));
    assert!(matches!(job.outcome(out(126, b"")), UnitManagementMessage::Failed(Reason::NotAuthorized)));
    assert!(matches!(job.outcome(out(0, b"")), UnitManagementMessage::Succeeded(UnitAction::Stop)));
}

#[test]
fn update_job() {
    let job = UpdateJob::new("2.7.0");
    let c = job.command();
    assert_eq!(c.program, "pkexec");
    assert_eq!(c.args, strs(&["/usr/local/sbin/mcconsole-modpack-update", "2.7.0"]));
    assert!(matches!(UpdateJob::outcome(None), UpdateMessage::Failed));
    assert!(matches!(UpdateJob::outcome(out(1, b"")), UpdateMessage::Failed));
    assert!(matches!(UpdateJob::outcome(out(0, b"")), UpdateMessage::Succeeded));
}

#[test]
fn line_to_users_reads_group_members() {
    assert_eq!(line_to_users("mc-viewer:x:1001:alice,bob"), strs(&["alice", "bob"]));
    assert_eq!(line_to_users("mc-admin:x:1003:"), strs(&[""]));
    assert_eq!(line_to_users("nocolon"), strs(&["nocolon"]));
}

#[test]
fn list_users_job() {
    let job = ListUsersJob;
    assert_eq!(job.command().program, "getent");
    assert_eq!(job.command().args, strs(&["group", "mc-viewer", "mc-operator", "mc-admin"]));
    let stdout = b"mc-viewer:x:1001:alice,bob\nmc-operator:x:1002:carol\nmc-admin:x:1003:dave\n";
    match job.outcome(out(0, stdout)) {
        ListUsersMessage::Succeeded { viewers, operators, admins } => {
            assert_eq!(viewers, strs(&["alice", "bob"]));
            assert_eq!(operators, strs(&["carol"]));
            assert_eq!(admins, strs(&["dave"]));
        }
        _ => panic!("expected success"),
    }
    assert!(matches!(job.outcome(None), ListUsersMessage::Failed()));
    assert!(matches!(job.outcome(out(2, stdout)), ListUsersMessage::Failed()));
    assert!(matches!(job.outcome(out(0, &[0xff, b'\n', b'\n'])), ListUsersMessage::Failed()));
}

#[test]
fn list_dir_job() {
    let job = ListDirJob::new("/srv");
    assert_eq!(job.path, "/srv");
    assert!(ListDirJob::outcome(None).is_none());
    assert_eq!(ListDirJob::outcome(Some(strs(&["a"]))).unwrap().files, strs(&["a"]));
}

#[test]
fn check_version_job() {
    assert_eq!(CheckVersionJob::outcome(Some(b"2.6.1".to_vec())).version, Some("2.6.1".to_string()));
    assert_eq!(CheckVersionJob::outcome(Some(vec![])).version, None);
    assert_eq!(CheckVersionJob::outcome(Some(vec![0xc3])).version, None);
    assert_eq!(CheckVersionJob::outcome(None).version, None);
}

#[test]
fn list_versions_job() {
    let keys = strs(&["2.8.0", "2.7.4", "2.7.3", "2.6.0"]);
    let job = ListVersionsJob::new("2.7.3");
    assert_eq!(job.versions_to_offer(&keys), strs(&["2.8.0", "2.7.4"]));
    assert_eq!(ListVersionsJob::new("2.8.0").versions_to_offer(&keys), strs(&[]));
    assert_eq!(ListVersionsJob::new("1.0.0").versions_to_offer(&keys), strs(&[]));
    assert_eq!(ListVersionsJob::default().versions_to_offer(&keys), keys);
    assert!(job.outcome(None).versions.is_empty());
    assert_eq!(job.outcome(Some(keys.clone())).versions, strs(&["2.8.0", "2.7.4"]));
}

#[test]
fn log_reader_job() {
    let c = UpdaterLogReaderJob.command();
    assert_eq!(c.program, "journalctl");
    assert_eq!(c.args, strs(&["-t", "mcconsole-modpack-update", "-o", "cat", "-n", "0", "-f"]));
    assert!(matches!(UpdaterLogReaderJob::on_line(true, Some("x".to_string())), LineStep::Stop));
    assert!(matches!(UpdaterLogReaderJob::on_line(false, None), LineStep::Skip));
    match UpdaterLogReaderJob::on_line(false, Some("hello".to_string())) {
        LineStep::Emit(l) => assert_eq!(l.line, "hello"),
        _ => panic!("expected a line"),
    }
    assert!(!UpdaterLogReaderJob::done(false).ok);
    assert!(UpdaterLogReaderJob::done(true).ok);
}

#[test]
fn stats_lines() {
    let s = parse_stats_line("1700000000 19.5 alice,bob").unwrap();
    assert_eq!(s.secs, 1700000000);
    assert_eq!(s.tps, "19.5");
    assert_eq!(s.players, strs(&["alice", "bob"]));
    let s = parse_stats_line("  1700000000\t20.0  ").unwrap();
    assert_eq!(s.players, strs(&[""]));
    assert!(parse_stats_line("1700000000").is_none());
    assert!(parse_stats_line("abc 20.0").is_none());
    assert!(parse_stats_line("").is_none());
    assert!(parse_stats_line("9223372036854775807 20.0").is_none());
}

#[test]
fn stats_file() {
    let file = b"1700000000 20.0 a\ngarbage\n1700000005 19.0\n".to_vec();
    let v = StatsReaderJob::samples(Some(file)).unwrap();
    assert_eq!(v.len(), 2);
    assert_eq!(v[0].secs, 1700000000);
    assert_eq!(v[1].tps, "19.0");
    assert!(StatsReaderJob::samples(None).is_none());
    assert!(StatsReaderJob::samples(Some(vec![0xff])).is_none());
    assert_eq!(StatsReaderJob::samples(Some(vec![])).unwrap().len(), 0);
    assert_eq!(v[1].secs, 1700000005);
}

#[test]
fn stats_time_stamps_within_chrono_dates() {
    assert_eq!(parse_stats_line("8210266876799 20.0").unwrap().secs, 8210266876799);
    assert!(parse_stats_line("8210266876800 20.0").is_none());
    assert_eq!(parse_stats_line("-8334601228800 20.0").unwrap().secs, -8334601228800);
    assert!(parse_stats_line("-8334601228801 20.0").is_none());
}

#[test]
fn jobs_subscribe_scenes() {
    let mut reg = Registrar::new();
    ListDirJob::subscribe(&mut reg);
    UpdaterLogReaderJob::subscribe(&mut reg);
    CheckVersionJob::subscribe(&mut reg);
    DeleteUserJob::subscribe(&mut reg);
}

#[test]
fn streamed_lines_are_forwarded_until_stopped() {
    match stream_step(false, Some("hello".to_string())) {
        StreamStep::Forward(m) => assert_eq!(m.line, "hello"),
        StreamStep::Stop => panic!("expected the line"),
    }
    assert!(matches!(stream_step(true, Some("hello".to_string())), StreamStep::Stop));
    assert!(matches!(stream_step(false, None), StreamStep::Stop));
}
