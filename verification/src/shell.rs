//! The user shell's command language: words, commands, and what `echo`
//! and `cat` are asked to do.
use vstd::prelude::*;
use vstd::string::{StrSliceExecFns, StringExecFns};

use crate::config::unicode_whitespace;

verus! {

/// Splitting `s` at whitespace, left to right: the words completed so far
/// and the characters of the one being read.
pub open spec fn word_state(s: Seq<char>) -> (Seq<Seq<char>>, Seq<char>)
    decreases s.len(),
{
    if s.len() == 0 {
        (Seq::empty(), Seq::empty())
    } else {
        let (done, cur) = word_state(s.drop_last());
        if unicode_whitespace(s.last()) {
            (
                if cur.len() > 0 {
                    done.push(cur)
                } else {
                    done
                },
                Seq::empty(),
            )
        } else {
            (done, cur.push(s.last()))
        }
    }
}

/// The words of `s`: its non-empty pieces between whitespace, in order, as
/// `str::split_whitespace` gives them.
pub open spec fn words_of(s: Seq<char>) -> Seq<Seq<char>> {
    let (done, cur) = word_state(s);
    if cur.len() > 0 {
        done.push(cur)
    } else {
        done
    }
}

/// The characters of a sequence of strings.
pub open spec fn strs_chars(v: Seq<&str>) -> Seq<Seq<char>> {
    v.map_values(|s: &str| s@)
}

/// Whether character `c` is whitespace.
pub(crate) fn is_whitespace(c: char) -> (r: bool)
    ensures
        r == unicode_whitespace(c),
{
    let u = c as u32;
    (0x9 <= u && u <= 0xD) || u == 0x20 || u == 0x85 || u == 0xA0 || u == 0x1680 || (0x2000 <= u && u
        <= 0x200A) || u == 0x2028 || u == 0x2029 || u == 0x202F || u == 0x205F || u == 0x3000
}

/// Splits `s` into its words.
pub fn split_words<'a>(s: &'a str) -> (r: Vec<&'a str>)
    ensures
        strs_chars(r@) == words_of(s@),
{
    let n = s.unicode_len();
    let mut words: Vec<&str> = Vec::new();
    let mut start: usize = 0;
    let mut i: usize = 0;
    assert(strs_chars(words@) =~= Seq::<Seq<char>>::empty());
    while i < n
        invariant
            n == s@.len(),
            start <= i <= n,
            (strs_chars(words@), s@.subrange(start as int, i as int)) == word_state(s@.subrange(0, i as int)),
        decreases n - i,
    {
        let ghost prev = s@.subrange(0, i as int);
        assert(s@.subrange(0, i + 1).drop_last() =~= prev);
        assert(s@.subrange(0, i + 1).last() == s@[i as int]);
        let c = s.get_char(i);
        if is_whitespace(c) {
            if i > start {
                let w = s.substring_char(start, i);
                let ghost before = words@;
                words.push(w);
                assert(strs_chars(words@) =~= strs_chars(before).push(w@));
            }
            start = i + 1;
            assert(s@.subrange(start as int, i + 1) =~= Seq::<char>::empty());
        } else {
            assert(s@.subrange(start as int, i + 1) =~= s@.subrange(start as int, i as int).push(c));
        }
        i = i + 1;
    }
    assert(s@.subrange(0, n as int) =~= s@);
    if n > start {
        let w = s.substring_char(start, n);
        let ghost before = words@;
        words.push(w);
        assert(strs_chars(words@) =~= strs_chars(before).push(w@));
    }
    words
}

/// Whether string `a` is `b`, character by character.
fn str_eq(a: &str, b: &str) -> (r: bool)
    ensures
        r == (a@ == b@),
{
    let n = a.unicode_len();
    if n != b.unicode_len() {
        return false;
    }
    let mut i: usize = 0;
    while i < n
        invariant
            n == a@.len(),
            n == b@.len(),
            i <= n,
            forall|j: int| 0 <= j < i ==> a@[j] == b@[j],
        decreases n - i,
    {
        if a.get_char(i) != b.get_char(i) {
            return false;
        }
        i = i + 1;
    }
    assert(a@ =~= b@);
    true
}

/// The shell's commands.
#[derive(Clone, Copy, Debug, PartialEq, Eq, Structural)]
pub enum Command {
    Ps,
    ListApp,
    Hello,
    Test,
    Help,
    Clear,
    Exit,
    Time,
    Counter,
    Mq,
    Dinner,
    Ls,
    Shell,
    Mkdir,
    Touch,
}

/// The command that a first word names.
pub open spec fn command_of(w: Seq<char>) -> Option<Command> {
    if w == "ps"@ {
        Some(Command::Ps)
    } else if w == "lsapp"@ {
        Some(Command::ListApp)
    } else if w == "hello"@ {
        Some(Command::Hello)
    } else if w == "test"@ {
        Some(Command::Test)
    } else if w == "clear"@ {
        Some(Command::Clear)
    } else if w == "exit"@ {
        Some(Command::Exit)
    } else if w == "help"@ {
        Some(Command::Help)
    } else if w == "time"@ {
        Some(Command::Time)
    } else if w == "counter"@ {
        Some(Command::Counter)
    } else if w == "mq"@ {
        Some(Command::Mq)
    } else if w == "dinner"@ {
        Some(Command::Dinner)
    } else if w == "ls"@ {
        Some(Command::Ls)
    } else if w == "sh"@ {
        Some(Command::Shell)
    } else if w == "mkdir"@ {
        Some(Command::Mkdir)
    } else if w == "touch"@ {
        Some(Command::Touch)
    } else {
        None
    }
}

/// The word that names command `c` on the command line.
pub open spec fn command_name(c: Command) -> Seq<char> {
    match c {
        Command::Ps => "ps"@,
        Command::ListApp => "lsapp"@,
        Command::Hello => "hello"@,
        Command::Test => "test"@,
        Command::Clear => "clear"@,
        Command::Exit => "exit"@,
        Command::Help => "help"@,
        Command::Time => "time"@,
        Command::Counter => "counter"@,
        Command::Mq => "mq"@,
        Command::Dinner => "dinner"@,
        Command::Ls => "ls"@,
        Command::Shell => "sh"@,
        Command::Mkdir => "mkdir"@,
        Command::Touch => "touch"@,
    }
}

/// Each command is named by its own word, and by no other: the word that
/// names a command selects it, and a word that selects a command is that
/// command's name. So distinct words select distinct commands.
pub proof fn law_command_words(w: Seq<char>, c: Command)
    ensures
        command_of(command_name(c)) == Some(c),
        command_of(w) == Some(c) ==> w == command_name(c),
{
    reveal_strlit("ps");
    reveal_strlit("lsapp");
    reveal_strlit("hello");
    reveal_strlit("test");
    reveal_strlit("clear");
    reveal_strlit("exit");
    reveal_strlit("help");
    reveal_strlit("time");
    reveal_strlit("counter");
    reveal_strlit("mq");
    reveal_strlit("dinner");
    reveal_strlit("ls");
    reveal_strlit("sh");
    reveal_strlit("mkdir");
    reveal_strlit("touch");
    assert("ps"@.len() == 2);
    assert("lsapp"@.len() == 5);
    assert("hello"@.len() == 5);
    assert("test"@.len() == 4);
    assert("clear"@.len() == 5);
    assert("exit"@.len() == 4);
    assert("help"@.len() == 4);
    assert("time"@.len() == 4);
    assert("counter"@.len() == 7);
    assert("mq"@.len() == 2);
    assert("dinner"@.len() == 6);
    assert("ls"@.len() == 2);
    assert("sh"@.len() == 2);
    assert("mkdir"@.len() == 5);
    assert("touch"@.len() == 5);
    assert("ps"@[0] != "mq"@[0]);
    assert("ps"@[0] != "ls"@[0]);
    assert("ps"@[0] != "sh"@[0]);
    assert("lsapp"@[0] != "hello"@[0]);
    assert("lsapp"@[0] != "clear"@[0]);
    assert("lsapp"@[0] != "mkdir"@[0]);
    assert("lsapp"@[0] != "touch"@[0]);
    assert("hello"@[0] != "clear"@[0]);
    assert("hello"@[0] != "mkdir"@[0]);
    assert("hello"@[0] != "touch"@[0]);
    assert("test"@[0] != "exit"@[0]);
    assert("test"@[0] != "help"@[0]);
    assert("test"@[1] != "time"@[1]);
    assert("clear"@[0] != "mkdir"@[0]);
    assert("clear"@[0] != "touch"@[0]);
    assert("exit"@[0] != "help"@[0]);
    assert("exit"@[0] != "time"@[0]);
    assert("help"@[0] != "time"@[0]);
    assert("mq"@[0] != "ls"@[0]);
    assert("mq"@[0] != "sh"@[0]);
    assert("ls"@[0] != "sh"@[0]);
    assert("mkdir"@[0] != "touch"@[0]);
    match c {
        Command::Ps => { assert(command_of(command_name(Command::Ps)) == Some(Command::Ps)); },
        Command::ListApp => { assert(command_of(command_name(Command::ListApp)) == Some(Command::ListApp)); },
        Command::Hello => { assert(command_of(command_name(Command::Hello)) == Some(Command::Hello)); },
        Command::Test => { assert(command_of(command_name(Command::Test)) == Some(Command::Test)); },
        Command::Clear => { assert(command_of(command_name(Command::Clear)) == Some(Command::Clear)); },
        Command::Exit => { assert(command_of(command_name(Command::Exit)) == Some(Command::Exit)); },
        Command::Help => { assert(command_of(command_name(Command::Help)) == Some(Command::Help)); },
        Command::Time => { assert(command_of(command_name(Command::Time)) == Some(Command::Time)); },
        Command::Counter => { assert(command_of(command_name(Command::Counter)) == Some(Command::Counter)); },
        Command::Mq => { assert(command_of(command_name(Command::Mq)) == Some(Command::Mq)); },
        Command::Dinner => { assert(command_of(command_name(Command::Dinner)) == Some(Command::Dinner)); },
        Command::Ls => { assert(command_of(command_name(Command::Ls)) == Some(Command::Ls)); },
        Command::Shell => { assert(command_of(command_name(Command::Shell)) == Some(Command::Shell)); },
        Command::Mkdir => { assert(command_of(command_name(Command::Mkdir)) == Some(Command::Mkdir)); },
        Command::Touch => { assert(command_of(command_name(Command::Touch)) == Some(Command::Touch)); },
    }
}

/// Two words that select the same command are the same word.
pub proof fn law_command_words_distinct(w1: Seq<char>, w2: Seq<char>)
    ensures
        command_of(w1) is Some && command_of(w1) == command_of(w2) ==> w1 == w2,
{
    if command_of(w1) is Some && command_of(w1) == command_of(w2) {
        let c = command_of(w1)->Some_0;
        law_command_words(w1, c);
        law_command_words(w2, c);
    }
}

impl Command {
    /// The command that a command line starts with, if its first word names
    /// one (an empty line names none).
    pub fn from_str(s: &str) -> (r: Option<Command>)
        ensures
            r == (if words_of(s@).len() > 0 {
                command_of(words_of(s@)[0])
            } else {
                command_of(""@)
            }),
    {
        let words = split_words(s);
        let first: &str = if words.len() > 0 {
            words[0]
        } else {
            ""
        };
        assert(first@ == (if words_of(s@).len() > 0 {
            words_of(s@)[0]
        } else {
            ""@
        }));
        if str_eq(first, "ps") {
            Some(Command::Ps)
        } else if str_eq(first, "lsapp") {
            Some(Command::ListApp)
        } else if str_eq(first, "hello") {
            Some(Command::Hello)
        } else if str_eq(first, "test") {
            Some(Command::Test)
        } else if str_eq(first, "clear") {
            Some(Command::Clear)
        } else if str_eq(first, "exit") {
            Some(Command::Exit)
        } else if str_eq(first, "help") {
            Some(Command::Help)
        } else if str_eq(first, "time") {
            Some(Command::Time)
        } else if str_eq(first, "counter") {
            Some(Command::Counter)
        } else if str_eq(first, "mq") {
            Some(Command::Mq)
        } else if str_eq(first, "dinner") {
            Some(Command::Dinner)
        } else if str_eq(first, "ls") {
            Some(Command::Ls)
        } else if str_eq(first, "sh") {
            Some(Command::Shell)
        } else if str_eq(first, "mkdir") {
            Some(Command::Mkdir)
        } else if str_eq(first, "touch") {
            Some(Command::Touch)
        } else {
            None
        }
    }
}

/// The second word of a command line, its argument.
pub fn argument<'a>(command: &'a str) -> (r: Option<&'a str>)
    ensures
        words_of(command@).len() > 1 ==> (r matches Some(a) && a@ == words_of(command@)[1]),
        words_of(command@).len() <= 1 ==> r is None,
{
    let words = split_words(command);
    if words.len() > 1 {
        Some(words[1])
    } else {
        None
    }
}

/// What a `cat` command line asks for.
#[derive(Debug, PartialEq, Eq)]
pub enum CatPlan<'a> {
    /// The line is not a `cat` command.
    NotCat,
    /// Wrong use: print the usage.
    Usage,
    /// Show the file at this path.
    Show(&'a str),
}

/// Reads a `cat` command line: `cat` and exactly one path.
pub fn cat_plan<'a>(command: &'a str) -> (r: CatPlan<'a>)
    ensures
        ({
            let w = words_of(command@);
            &&& (w.len() == 0 || w[0] != "cat"@) ==> r == CatPlan::NotCat
            &&& (w.len() > 0 && w[0] == "cat"@ && w.len() != 2) ==> r == CatPlan::Usage
            &&& (w.len() == 2 && w[0] == "cat"@) ==> (r matches CatPlan::Show(p) && p@ == w[1])
        }),
{
    let words = split_words(command);
    if words.len() == 0 || !str_eq(words[0], "cat") {
        return CatPlan::NotCat;
    }
    if words.len() != 2 {
        return CatPlan::Usage;
    }
    CatPlan::Show(words[1])
}

/// What an `echo` command line asks for.
#[derive(Debug, PartialEq, Eq)]
pub enum EchoPlan<'a> {
    /// The line is not an `echo` command.
    NotEcho,
    /// Print this line.
    Print(String),
    /// Wrong use of `>`: print the usage.
    Usage,
    /// Write the text into the file at the path (creating it if needed).
    Redirect { text: String, path: &'a str },
}

/// The words `ws` joined with single spaces.
pub open spec fn joined(ws: Seq<Seq<char>>) -> Seq<char>
    decreases ws.len(),
{
    if ws.len() == 0 {
        Seq::empty()
    } else if ws.len() == 1 {
        ws[0]
    } else {
        joined(ws.drop_last()) + " "@ + ws.last()
    }
}

/// Where the first `>` word is in `ws`, or -1.
pub open spec fn first_redirect(ws: Seq<Seq<char>>) -> int
    decreases ws.len(),
{
    if ws.len() == 0 {
        -1
    } else if first_redirect(ws.drop_last()) >= 0 {
        first_redirect(ws.drop_last())
    } else if ws.last() == ">"@ {
        ws.len() - 1
    } else {
        -1
    }
}

proof fn lemma_first_redirect(ws: Seq<Seq<char>>, j: int)
    requires
        0 <= j <= ws.len(),
        forall|m: int| 0 <= m < j ==> ws[m] != ">"@,
        j == ws.len() || ws[j] == ">"@,
    ensures
        j == ws.len() ==> first_redirect(ws) == -1,
        j < ws.len() ==> first_redirect(ws) == j,
    decreases ws.len(),
{
    if ws.len() > 0 {
        if j == ws.len() {
            lemma_first_redirect(ws.drop_last(), j - 1);
        } else {
            lemma_first_redirect(ws.drop_last(), j);
        }
    }
}

/// Joins `words[from..to]` with single spaces.
fn join_words(words: &Vec<&str>, from: usize, to: usize) -> (r: String)
    requires
        from <= to <= words@.len(),
    ensures
        r@ == joined(strs_chars(words@).subrange(from as int, to as int)),
{
    let mut out = String::new();
    let mut k: usize = from;
    proof {
        reveal_strlit(" ");
    }
    assert(strs_chars(words@).subrange(from as int, from as int) =~= Seq::<Seq<char>>::empty());
    while k < to
        invariant
            from <= k <= to,
            to <= words@.len(),
            out@ == joined(strs_chars(words@).subrange(from as int, k as int)),
        decreases to - k,
    {
        let ghost pre = strs_chars(words@).subrange(from as int, k + 1);
        assert(pre.drop_last() =~= strs_chars(words@).subrange(from as int, k as int));
        assert(pre.last() == words@[k as int]@);
        if k > from {
            out.append(" ");
        }
        out.append(words[k]);
        k = k + 1;
    }
    out
}

/// Reads an `echo` command line: the words after `echo` are printed,
/// joined by single spaces; with a `>` word between some text and a path,
/// the text before it goes into the file at the path after it.
pub fn echo_plan<'a>(command: &'a str) -> (r: EchoPlan<'a>)
    ensures
        ({
            let w = words_of(command@);
            let rest = w.drop_first();
            let pos = first_redirect(rest);
            &&& (w.len() == 0 || w[0] != "echo"@) ==> r == EchoPlan::NotEcho
            &&& (w.len() > 0 && w[0] == "echo"@ && pos < 0) ==> (r matches EchoPlan::Print(t) && t@
                == joined(rest))
            &&& (w.len() > 0 && w[0] == "echo"@ && pos >= 0 && (pos == 0 || pos == rest.len() - 1))
                ==> r == EchoPlan::Usage
            &&& (w.len() > 0 && w[0] == "echo"@ && pos > 0 && pos < rest.len() - 1) ==> (r matches EchoPlan::Redirect {
                text,
                path,
            } && text@ == joined(rest.subrange(0, pos)) && path@ == rest[pos + 1])
        }),
{
    let words = split_words(command);
    if words.len() == 0 || !str_eq(words[0], "echo") {
        return EchoPlan::NotEcho;
    }
    let ghost w = strs_chars(words@);
    let ghost rest = w.drop_first();
    proof {
        reveal_strlit(">");
    }
    let mut j: usize = 1;
    while j < words.len() && !str_eq(words[j], ">")
        invariant
            1 <= j <= words@.len(),
            w == strs_chars(words@),
            rest == w.drop_first(),
            forall|m: int| 0 <= m < j - 1 ==> rest[m] != ">"@,
        decreases words@.len() - j,
    {
        j = j + 1;
    }
    proof {
        lemma_first_redirect(rest, j - 1);
    }
    if j == words.len() {
        let text = join_words(&words, 1, words.len());
        assert(w.subrange(1, w.len() as int) =~= rest);
        return EchoPlan::Print(text);
    }
    if j == 1 || j == words.len() - 1 {
        return EchoPlan::Usage;
    }
    let text = join_words(&words, 1, j);
    assert(w.subrange(1, j as int) =~= rest.subrange(0, j - 1));
    EchoPlan::Redirect { text, path: words[j + 1] }
}

} // verus!
