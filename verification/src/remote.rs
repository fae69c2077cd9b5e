//! Running commands on a remote host over ssh: quoting for the remote shell,
//! and the ssh invocations.
use crate::command::{Command, CommandView, Output};
use crate::text::{chars_of, lines, lines_of, push_all, string_of, utf8_lossy, lossy_utf8, views};
use vstd::prelude::*;

verus! {

/// Characters that the remote shell takes literally.
pub open spec fn is_safe_char(c: char) -> bool {
    ||| ('a' <= c && c <= 'z')
    ||| ('A' <= c && c <= 'Z')
    ||| ('0' <= c && c <= '9')
    ||| c == '@' || c == '%' || c == '+' || c == '=' || c == ':' || c == ','
    ||| c == '.' || c == '/' || c == '-' || c == '_'
}

/// A word that needs no quoting.
pub open spec fn is_safe_word(s: Seq<char>) -> bool {
    s.len() > 0 && forall|i: int| 0 <= i < s.len() ==> is_safe_char(#[trigger] s[i])
}

/// `s` with each single quote written as `'\''`.
pub open spec fn escape_quotes(s: Seq<char>) -> Seq<char>
    decreases s.len(),
{
    if s.len() == 0 {
        Seq::empty()
    } else {
        escape_quotes(s.drop_last()) + (if s.last() == '\'' {
            seq!['\'', '\\', '\'', '\'']
        } else {
            seq![s.last()]
        })
    }
}

/// How a word reaches the remote shell: as it stands when it is safe,
/// otherwise between single quotes.
pub open spec fn shell_quoted(s: Seq<char>) -> Seq<char> {
    if is_safe_word(s) {
        s
    } else {
        seq!['\''] + escape_quotes(s) + seq!['\'']
    }
}

/// Words joined by single spaces.
pub open spec fn join_words(ws: Seq<Seq<char>>) -> Seq<char>
    decreases ws.len(),
{
    if ws.len() == 0 {
        Seq::empty()
    } else if ws.len() == 1 {
        ws[0]
    } else {
        join_words(ws.drop_last()) + seq![' '] + ws.last()
    }
}

/// The command line that the remote shell receives for a command.
pub open spec fn remote_cmdline_of(c: CommandView) -> Seq<char> {
    join_words((seq![c.program] + c.args).map_values(|w: Seq<char>| shell_quoted(w)))
}

/// The characters a word may hold and still go unquoted: ASCII letters
/// and digits, and `@%+=:,./-_`.
pub open spec fn is_plain_ascii(c: char) -> bool {
    ('0' <= c && c <= '9') || ('a' <= c && c <= 'z') || ('A' <= c && c <= 'Z') || "@%+=:,./-_"@.contains(c)
}

/// Escaping never shortens a text.
proof fn lemma_escape_quotes_len(s: Seq<char>)
    ensures
        escape_quotes(s).len() >= s.len(),
    decreases s.len(),
{
    if s.len() > 0 {
        lemma_escape_quotes_len(s.drop_last());
    }
}

/// A word goes to the remote shell as it stands exactly when it is not empty
/// and holds only ASCII letters, digits and `@%+=:,./-_`; every other word
/// is changed (put between single quotes).
pub proof fn lemma_left_unquoted_exactly_plain(w: Seq<char>)
    ensures
        shell_quoted(w) == w <==> (w.len() > 0 && forall|i: int| 0 <= i < w.len() ==> is_plain_ascii(#[trigger] w[i])),
{
    reveal_strlit("@%+=:,./-_");
    let syms = "@%+=:,./-_"@;
    assert(syms =~= seq!['@', '%', '+', '=', ':', ',', '.', '/', '-', '_']);
    assert forall|c: char| #[trigger] is_plain_ascii(c) <==> is_safe_char(c) by {
        if is_safe_char(c) && !(('0' <= c && c <= '9') || ('a' <= c && c <= 'z') || ('A' <= c && c <= 'Z')) {
            if c == '@' { assert(syms[0] == c); }
            else if c == '%' { assert(syms[1] == c); }
            else if c == '+' { assert(syms[2] == c); }
            else if c == '=' { assert(syms[3] == c); }
            else if c == ':' { assert(syms[4] == c); }
            else if c == ',' { assert(syms[5] == c); }
            else if c == '.' { assert(syms[6] == c); }
            else if c == '/' { assert(syms[7] == c); }
            else if c == '-' { assert(syms[8] == c); }
            else { assert(syms[9] == c); }
        }
        if syms.contains(c) {
            let k = choose|k: int| 0 <= k < syms.len() && syms[k] == c;
            assert(0 <= k < 10);
        }
    }
    if !is_safe_word(w) {
        lemma_escape_quotes_len(w);
        assert(shell_quoted(w).len() > w.len());
    }
}

fn is_safe(c: char) -> (r: bool)
    ensures
        r == is_safe_char(c),
{
    ('a' <= c && c <= 'z') || ('A' <= c && c <= 'Z') || ('0' <= c && c <= '9') || c == '@' || c == '%'
        || c == '+' || c == '=' || c == ':' || c == ',' || c == '.' || c == '/' || c == '-' || c == '_'
}

fn quote_chars(s: &Vec<char>) -> (r: Vec<char>)
    ensures
        r@ == shell_quoted(s@),
{
    let mut safe = s.len() > 0;
    let mut i: usize = 0;
    while i < s.len()
        invariant
            i <= s.len(),
            safe == (s@.len() > 0 && forall|k: int| 0 <= k < i ==> is_safe_char(#[trigger] s@[k])),
        decreases s.len() - i,
    {
        if !is_safe(s[i]) {
            safe = false;
        }
        i += 1;
    }
    if safe {
        let mut r: Vec<char> = Vec::new();
        push_all(&mut r, s);
        assert(r@ =~= s@);
        return r;
    }
    let mut r: Vec<char> = Vec::new();
    r.push('\'');
    let mut j: usize = 0;
    while j < s.len()
        invariant
            j <= s.len(),
            r@ == seq!['\''] + escape_quotes(s@.take(j as int)),
        decreases s.len() - j,
    {
        let c = s[j];
        proof {
            assert(s@.take(j as int + 1).drop_last() =~= s@.take(j as int));
            assert(s@.take(j as int + 1).last() == c);
        }
        if c == '\'' {
            r.push('\'');
            r.push('\\');
            r.push('\'');
            r.push('\'');
        } else {
            r.push(c);
        }
        j += 1;
        assert(r@ =~= seq!['\''] + escape_quotes(s@.take(j as int)));
    }
    r.push('\'');
    assert(s@.take(s.len() as int) =~= s@);
    assert(r@ =~= seq!['\''] + escape_quotes(s@) + seq!['\'']);
    r
}

/// Quotes a word for the remote shell.
pub fn shell_quote(s: &str) -> (r: String)
    ensures
        r@ == shell_quoted(s@),
{
    let cs = chars_of(s);
    let q = quote_chars(&cs);
    string_of(&q)
}

pub struct SshExecutor {
    pub host: String,
    pub opts: Vec<String>,
}

impl SshExecutor {
    /// The ssh invocation: the options, then the host.
    pub fn base(&self) -> (c: Command)
        ensures
            c@.program == "ssh"@,
            c@.args == views(self.opts@).push(self.host@),
    {
        let mut c = Command::new("ssh");
        let mut i: usize = 0;
        while i < self.opts.len()
            invariant
                i <= self.opts.len(),
                c@.program == "ssh"@,
                c@.args == views(self.opts@).take(i as int),
            decreases self.opts.len() - i,
        {
            c = c.arg(self.opts[i].as_str());
            i += 1;
            assert(c@.args =~= views(self.opts@).take(i as int));
        }
        assert(views(self.opts@).take(self.opts.len() as int) =~= views(self.opts@));
        c.arg(self.host.as_str())
    }

    /// The command line, quoted word by word, that runs `cmd` in the remote shell.
    pub fn remote_cmdline(cmd: &Command) -> (r: String)
        ensures
            r@ == remote_cmdline_of(cmd@),
    {
        let ghost ws = (seq![cmd@.program] + cmd@.args).map_values(|w: Seq<char>| shell_quoted(w));
        let p = chars_of(cmd.program.as_str());
        let mut out = quote_chars(&p);
        proof {
            assert(ws.take(1) =~= seq![ws[0]]);
            assert(join_words(ws.take(1)) == ws[0]);
        }
        let mut i: usize = 0;
        while i < cmd.args.len()
            invariant
                i <= cmd.args.len(),
                ws == (seq![cmd@.program] + cmd@.args).map_values(|w: Seq<char>| shell_quoted(w)),
                ws.len() == cmd.args@.len() + 1,
                out@ == join_words(ws.take(i as int + 1)),
            decreases cmd.args.len() - i,
        {
            let a = chars_of(cmd.args[i].as_str());
            let q = quote_chars(&a);
            out.push(' ');
            push_all(&mut out, &q);
            i += 1;
            proof {
                assert(ws.take(i as int + 1).drop_last() =~= ws.take(i as int));
                assert(ws.take(i as int + 1).last() == ws[i as int]);
                assert(cmd@.args[i - 1] == cmd.args@[i - 1]@);
                assert(ws[i as int] == shell_quoted(cmd@.args[i - 1]));
                assert(out@ =~= join_words(ws.take(i as int)) + seq![' '] + ws[i as int]);
            }
        }
        assert(ws.take(cmd.args.len() as int + 1) =~= ws);
        string_of(&out)
    }

    /// The ssh invocation that runs `cmd` on the remote host.
    pub fn remote_command(&self, cmd: &Command) -> (c: Command)
        ensures
            c@.program == "ssh"@,
            c@.args == views(self.opts@).push(self.host@).push(remote_cmdline_of(cmd@)),
    {
        let line = Self::remote_cmdline(cmd);
        self.base().arg(line.as_str())
    }

    /// Reads a remote file with `cat`.
    pub fn read_file_command(&self, path: &str) -> (c: Command)
        ensures
            c@.program == "ssh"@,
            c@.args == views(self.opts@).push(self.host@).push(
                remote_cmdline_of(CommandView { program: "cat"@, args: seq![path@] }),
            ),
    {
        let cat = Command::new("cat").arg(path);
        assert(cat@ == CommandView { program: "cat"@, args: seq![path@] }) by {
            assert(cat@.args =~= seq![path@]);
        }
        self.remote_command(&cat)
    }

    /// The file's contents when the remote `cat` succeeded.
    pub fn read_file_result(o: Output) -> (r: Option<Vec<u8>>)
        ensures
            r == (if o.code == 0 {
                Some(o.stdout)
            } else {
                None
            }),
    {
        if o.success() {
            Some(o.stdout)
        } else {
            None
        }
    }

    /// Writes a remote file: the data goes to the standard input of `cat`.
    pub fn write_file_command(&self, path: &str) -> (c: Command)
        ensures
            c@.program == "ssh"@,
            c@.args == views(self.opts@).push(self.host@).push("cat > "@ + shell_quoted(path@)),
    {
        let mut line = chars_of("cat > ");
        let q = chars_of(path);
        let q = quote_chars(&q);
        push_all(&mut line, &q);
        let line = string_of(&line);
        self.base().arg(line.as_str())
    }

    /// Lists a remote directory with `ls -1A`.
    pub fn list_dir_command(&self, path: &str) -> (c: Command)
        ensures
            c@.program == "ssh"@,
            c@.args == views(self.opts@).push(self.host@).push(
                remote_cmdline_of(CommandView { program: "ls"@, args: seq!["-1A"@, path@] }),
            ),
    {
        let ls = Command::new("ls").arg("-1A").arg(path);
        assert(ls@ == CommandView { program: "ls"@, args: seq!["-1A"@, path@] }) by {
            assert(ls@.args =~= seq!["-1A"@, path@]);
        }
        self.remote_command(&ls)
    }

    /// The names that `ls -1A` printed, one per line.
    pub fn list_dir_result(stdout: &Vec<u8>) -> (r: Vec<String>)
        ensures
            views(r@) == lines_of(lossy_utf8(stdout@)),
    {
        let text = utf8_lossy(stdout);
        lines(text.as_str())
    }
}

/// Characters to which a POSIX shell gives a meaning of its own outside
/// quotes: blanks and line ends, the operators `| & ; < > ( )`, the
/// expansions `$` and backquote, the quotes and the backslash, the pattern
/// characters `* ? [ ]`, `#` (a comment), `~` (a home directory), `!` and
/// braces (history and brace expansion in some shells), and the control
/// characters.
pub open spec fn is_shell_special(c: char) -> bool {
    ||| c == ' ' || c == '\t' || c == '\n'
    ||| c == '|' || c == '&' || c == ';' || c == '<' || c == '>' || c == '(' || c == ')'
    ||| c == '$' || c == '`' || c == '"' || c == '\'' || c == '\\'
    ||| c == '*' || c == '?' || c == '[' || c == ']'
    ||| c == '#' || c == '~' || c == '!' || c == '{' || c == '}'
    ||| (c as int) < 32 || (c as int) == 127
}

/// Where a POSIX shell stands while it reads a command line: the words read
/// so far, the word being read, and whether it is inside single quotes or
/// right after a backslash. `ok` turns false on a character whose meaning
/// this reading leaves open: an unquoted special character other than a
/// quote, a backslash or a space.
pub struct ShellReading {
    pub words: Seq<Seq<char>>,
    pub cur: Seq<char>,
    pub in_word: bool,
    pub quoted: bool,
    pub escaped: bool,
    pub ok: bool,
}

pub open spec fn reading_start() -> ShellReading {
    ShellReading {
        words: Seq::empty(),
        cur: Seq::empty(),
        in_word: false,
        quoted: false,
        escaped: false,
        ok: true,
    }
}

/// The shell reads one more character.
pub open spec fn shell_step(st: ShellReading, c: char) -> ShellReading {
    if !st.ok {
        st
    } else if st.quoted {
        if c == '\'' {
            ShellReading { quoted: false, ..st }
        } else {
            ShellReading { cur: st.cur.push(c), ..st }
        }
    } else if st.escaped {
        ShellReading { cur: st.cur.push(c), escaped: false, in_word: true, ..st }
    } else if c == '\'' {
        ShellReading { quoted: true, in_word: true, ..st }
    } else if c == '\\' {
        ShellReading { escaped: true, in_word: true, ..st }
    } else if c == ' ' {
        if st.in_word {
            ShellReading { words: st.words.push(st.cur), cur: Seq::empty(), in_word: false, ..st }
        } else {
            st
        }
    } else if is_shell_special(c) {
        ShellReading { ok: false, ..st }
    } else {
        ShellReading { cur: st.cur.push(c), in_word: true, ..st }
    }
}

/// The shell reads `s`, from left to right.
pub open spec fn shell_run(s: Seq<char>, st: ShellReading) -> ShellReading
    decreases s.len(),
{
    if s.len() == 0 {
        st
    } else {
        shell_run(s.drop_first(), shell_step(st, s[0]))
    }
}

/// The words a POSIX shell makes of a command line, when this reading
/// settles every character.
pub open spec fn shell_words(line: Seq<char>) -> Option<Seq<Seq<char>>> {
    let st = shell_run(line, reading_start());
    if st.ok && !st.quoted && !st.escaped {
        Some(if st.in_word { st.words.push(st.cur) } else { st.words })
    } else {
        None
    }
}

proof fn lemma_shell_run_concat(a: Seq<char>, b: Seq<char>, st: ShellReading)
    ensures
        shell_run(a + b, st) == shell_run(b, shell_run(a, st)),
    decreases a.len(),
{
    if a.len() == 0 {
        assert(a + b =~= b);
    } else {
        assert((a + b).drop_first() =~= a.drop_first() + b);
        lemma_shell_run_concat(a.drop_first(), b, shell_step(st, a[0]));
    }
}

proof fn lemma_shell_run_push(a: Seq<char>, c: char, st: ShellReading)
    ensures
        shell_run(a.push(c), st) == shell_step(shell_run(a, st), c),
{
    lemma_shell_run_concat(a, seq![c], st);
    assert(a + seq![c] =~= a.push(c));
    let mid = shell_run(a, st);
    assert(shell_run(seq![c], mid) == shell_step(mid, c)) by {
        reveal_with_fuel(shell_run, 2);
        assert(seq![c].drop_first() =~= Seq::<char>::empty());
        assert(seq![c][0] == c);
    }
}

/// Safe characters are read as they stand.
proof fn lemma_read_safe(w: Seq<char>, st: ShellReading)
    requires
        forall|i: int| 0 <= i < w.len() ==> is_safe_char(#[trigger] w[i]),
        st.ok,
        !st.quoted,
        !st.escaped,
        w.len() > 0 || st.in_word,
    ensures
        shell_run(w, st) == (ShellReading { cur: st.cur + w, in_word: true, ..st }),
    decreases w.len(),
{
    if w.len() == 0 {
        assert(st.cur + w =~= st.cur);
    } else {
        let v = w.drop_last();
        assert(w =~= v.push(w.last()));
        lemma_shell_run_push(v, w.last(), st);
        assert(is_safe_char(w[w.len() - 1]));
        if v.len() > 0 {
            lemma_read_safe(v, st);
            assert(st.cur + v.push(w.last()) =~= (st.cur + v).push(w.last()));
        } else {
            assert(v =~= Seq::<char>::empty());
            assert(st.cur + w =~= st.cur.push(w.last()));
        }
    }
}

/// Between single quotes, the escaped text reads as the text itself.
proof fn lemma_read_escaped(w: Seq<char>, st: ShellReading)
    requires
        st.ok,
        st.quoted,
        !st.escaped,
        st.in_word,
    ensures
        shell_run(escape_quotes(w), st) == (ShellReading { cur: st.cur + w, ..st }),
    decreases w.len(),
{
    if w.len() == 0 {
        assert(st.cur + w =~= st.cur);
        assert(escape_quotes(w) =~= Seq::<char>::empty());
    } else {
        let v = w.drop_last();
        let c = w.last();
        lemma_read_escaped(v, st);
        let mid = ShellReading { cur: st.cur + v, ..st };
        let tail = if c == '\'' {
            seq!['\'', '\\', '\'', '\'']
        } else {
            seq![c]
        };
        assert(escape_quotes(w) == escape_quotes(v) + tail);
        lemma_shell_run_concat(escape_quotes(v), tail, st);
        if c == '\'' {
            reveal_with_fuel(shell_run, 5);
            assert(tail.drop_first().drop_first().drop_first().drop_first() =~= Seq::<char>::empty());
        } else {
            reveal_with_fuel(shell_run, 2);
            assert(tail.drop_first() =~= Seq::<char>::empty());
        }
        assert(st.cur + w =~= (st.cur + v).push(c));
    }
}

/// A quoted word reads as the word, whatever it holds.
proof fn lemma_read_quoted(w: Seq<char>, st: ShellReading)
    requires
        st.ok,
        !st.quoted,
        !st.escaped,
        !st.in_word,
        st.cur == Seq::<char>::empty(),
    ensures
        shell_run(shell_quoted(w), st) == (ShellReading { cur: w, in_word: true, ..st }),
{
    if is_safe_word(w) {
        lemma_read_safe(w, st);
        assert(st.cur + w =~= w);
    } else {
        let open = ShellReading { quoted: true, in_word: true, ..st };
        assert(shell_run(seq!['\''], st) == open) by {
            reveal_with_fuel(shell_run, 2);
            assert(seq!['\''].drop_first() =~= Seq::<char>::empty());
        }
        lemma_shell_run_concat(seq!['\''], escape_quotes(w), st);
        lemma_read_escaped(w, open);
        lemma_shell_run_concat(seq!['\''] + escape_quotes(w), seq!['\''], st);
        assert(shell_run(seq!['\''], ShellReading { cur: open.cur + w, ..open }) == (ShellReading {
            cur: w,
            in_word: true,
            ..st
        })) by {
            reveal_with_fuel(shell_run, 2);
            assert(seq!['\''].drop_first() =~= Seq::<char>::empty());
            assert(open.cur + w =~= w);
        }
    }
}

/// The shell reads a line of quoted words joined by spaces word by word.
proof fn lemma_read_joined(ws: Seq<Seq<char>>)
    requires
        ws.len() > 0,
    ensures
        shell_run(join_words(ws.map_values(|w: Seq<char>| shell_quoted(w))), reading_start()) == (ShellReading {
            words: ws.drop_last(),
            cur: ws.last(),
            in_word: true,
            ..reading_start()
        }),
    decreases ws.len(),
{
    let qs = ws.map_values(|w: Seq<char>| shell_quoted(w));
    if ws.len() == 1 {
        lemma_read_quoted(ws[0], reading_start());
        assert(ws.drop_last() =~= Seq::<Seq<char>>::empty());
    } else {
        let vs = ws.drop_last();
        lemma_read_joined(vs);
        assert(qs.drop_last() =~= vs.map_values(|w: Seq<char>| shell_quoted(w)));
        let before = join_words(qs.drop_last());
        let st1 = shell_run(before, reading_start());
        lemma_shell_run_concat(before + seq![' '], qs.last(), reading_start());
        lemma_shell_run_concat(before, seq![' '], reading_start());
        let st2 = ShellReading { words: vs.drop_last().push(vs.last()), cur: Seq::empty(), in_word: false, ..reading_start() };
        assert(shell_run(seq![' '], st1) == st2) by {
            reveal_with_fuel(shell_run, 2);
            assert(seq![' '].drop_first() =~= Seq::<char>::empty());
        }
        lemma_read_quoted(ws.last(), st2);
        assert(vs.drop_last().push(vs.last()) =~= ws.drop_last());
    }
}

/// Quoting a word for the remote shell is safe: the shell reads the quoted
/// word back as that one word, whatever characters it holds.
pub proof fn lemma_shell_quote_reads_back(w: Seq<char>)
    ensures
        shell_words(shell_quoted(w)) == Some(seq![w]),
{
    lemma_read_quoted(w, reading_start());
    assert(Seq::<Seq<char>>::empty().push(w) =~= seq![w]);
}

/// The remote shell runs exactly the command that was asked for: it reads
/// the command line back as the program followed by the arguments.
pub proof fn lemma_remote_cmdline_reads_back(c: CommandView)
    ensures
        shell_words(remote_cmdline_of(c)) == Some(seq![c.program] + c.args),
{
    let ws = seq![c.program] + c.args;
    lemma_read_joined(ws);
    assert(ws.drop_last().push(ws.last()) =~= ws);
}

} // verus!
