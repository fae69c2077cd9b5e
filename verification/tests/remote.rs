use mcconsole::command::{Command, Output};
use mcconsole::remote::{SshExecutor, shell_quote};
use mcconsole::target::{Target, parse_target};

fn strs(v: &[&str]) -> Vec<String> {
    v.iter().map(|s| s.to_string()).collect()
}

#[test]
fn shell_quote_leaves_safe_words_alone() {
    assert_eq!(shell_quote("abc"), "abc");
    assert_eq!(shell_quote("/opt/minecraft/file-1.txt"), "/opt/minecraft/file-1.txt");
    assert_eq!(shell_quote("user@host:22,a=b+c%d_e"), "user@host:22,a=b+c%d_e");
}

#[test]
fn shell_quote_quotes_everything_else() {
    assert_eq!(shell_quote(""), "''");
    assert_eq!(shell_quote("a b"), "'a b'");
    assert_eq!(shell_quote("it's"), "'it'\\''s'");
    assert_eq!(shell_quote("é"), "'é'");
    assert_eq!(shell_quote("$HOME"), "'$HOME'");
}

#[test]
fn remote_cmdline_quotes_each_word() {
    let c = Command::new("ls").arg("-1A").arg("my dir");
    assert_eq!(SshExecutor::remote_cmdline(&c), "ls -1A 'my dir'");
    let c = Command::new("echo");
    assert_eq!(SshExecutor::remote_cmdline(&c), "echo");
    let c = Command::new("echo").arg("");
    assert_eq!(SshExecutor::remote_cmdline(&c), "echo ''");
}

fn executor() -> SshExecutor {
    SshExecutor { host: "srv".to_string(), opts: strs(&["-o", "BatchMode=yes"]) }
}

#[test]
fn ssh_invocations() {
    let e = executor();
    let b = e.base();
    assert_eq!(b.program, "ssh");
    assert_eq!(b.args, strs(&["-o", "BatchMode=yes", "srv"]));
    let r = e.read_file_command("/tmp/a b");
    assert_eq!(r.args, strs(&["-o", "BatchMode=yes", "srv", "cat '/tmp/a b'"]));
    let w = e.write_file_command("/tmp/x");
    assert_eq!(w.args, strs(&["-o", "BatchMode=yes", "srv", "cat > /tmp/x"]));
    let l = e.list_dir_command(".");
    assert_eq!(l.args, strs(&["-o", "BatchMode=yes", "srv", "ls -1A ."]));
    let run = e.remote_command(&Command::new("id").arg("-u"));
    assert_eq!(run.args, strs(&["-o", "BatchMode=yes", "srv", "id -u"]));
}

#[test]
fn ssh_results() {
    let ok = Output { code: 0, stdout: b"data".to_vec(), stderr: vec![] };
    let bad = Output { code: 1, stdout: b"data".to_vec(), stderr: vec![] };
    assert_eq!(SshExecutor::read_file_result(ok), Some(b"data".to_vec()));
    assert_eq!(SshExecutor::read_file_result(bad), None);
    assert_eq!(SshExecutor::list_dir_result(&b"a\nb c\n".to_vec()), strs(&["a", "b c"]));
    assert_eq!(SshExecutor::list_dir_result(&vec![0x61, 0xff, b'\n']), strs(&["a\u{fffd}"]));
}

#[test]
fn parse_target_reads_remote_flag() {
    match parse_target(&strs(&["mcconsole", "--remote", "mc.example.org"])) {
        Target::Remote { host, opts } => {
            assert_eq!(host, "mc.example.org");
            assert_eq!(
                opts,
                strs(&[
                    "-o",
                    "ControlMaster=auto",
                    "-o",
                    "ControlPersist=60s",
                    "-o",
                    "ControlPath=~/.ssh/cp-%r@%h:%p"
                ])
            );
        }
        Target::Local => panic!("expected a remote target"),
    }
    match parse_target(&strs(&["mcconsole", "-v", "--remote", "h", "--remote", "k"])) {
        Target::Remote { host, .. } => assert_eq!(host, "h"),
        Target::Local => panic!("expected a remote target"),
    }
}

#[test]
fn parse_target_defaults_to_local() {
    assert!(matches!(parse_target(&strs(&["mcconsole"])), Target::Local));
    assert!(matches!(parse_target(&strs(&["mcconsole", "--remote"])), Target::Local));
    assert!(matches!(parse_target(&strs(&["--remote", "h"])), Target::Local));
    assert!(matches!(parse_target(&strs(&[])), Target::Local));
}

#[test]
fn remote_cmdline_keeps_every_word_apart() {
    let c = Command::new("say").arg("it's").arg("a b").arg("").arg("$x;rm");
    assert_eq!(SshExecutor::remote_cmdline(&c), "say 'it'\\''s' 'a b' '' '$x;rm'");
}
