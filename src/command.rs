//! The commands of the command pane: a command word and its arguments,
//! separated by white space.
use vstd::prelude::*;
use crate::buffer::lines_of;
use crate::models::Operations;
use crate::search::{is_space, words};
use crate::text::{chars_of, string_of};

verus! {

/// Why a command was refused.
#[derive(Debug, Clone, Copy, PartialEq, Eq, Structural)]
pub enum CommandError {
    /// `count` came without a word.
    MissingWord,
    /// The command word is unknown.
    Invalid,
}

impl CommandError {
    /// The message shown for the error.
    pub fn message(&self) -> (r: String)
        ensures
            *self == CommandError::MissingWord ==> r@ == "No word provided for count command"@,
            *self == CommandError::Invalid ==> r@ == "Invalid command "@,
    {
        match self {
            CommandError::MissingWord => "No word provided for count command".to_owned(),
            CommandError::Invalid => "Invalid command ".to_owned(),
        }
    }
}

/// Words joined by single spaces.
pub open spec fn join_spaced(ws: Seq<Seq<char>>) -> Seq<char>
    decreases ws.len(),
{
    if ws.len() == 0 {
        Seq::empty()
    } else if ws.len() == 1 {
        ws[0]
    } else {
        join_spaced(ws.drop_last()) + seq![' '] + ws.last()
    }
}

/// `w` without the slashes at its start.
pub open spec fn strip_slashes(w: Seq<char>) -> Seq<char>
    decreases w.len(),
{
    if w.len() > 0 && w[0] == '/' {
        strip_slashes(w.skip(1))
    } else {
        w
    }
}

/// The words of `l`, in order.
fn split_words(l: &Vec<char>) -> (r: Vec<Vec<char>>)
    ensures
        lines_of(r@) == words(l@),
{
    let mut out: Vec<Vec<char>> = Vec::new();
    let mut cur: Vec<char> = Vec::new();
    let mut i: usize = 0;
    while i < l.len()
        invariant
            i <= l@.len(),
            cur@.len() > 0 ==> words(l@.take(i as int)) == lines_of(out@).push(cur@),
            cur@.len() == 0 ==> words(l@.take(i as int)) == lines_of(out@),
            cur@.len() > 0 <==> (i > 0 && !is_space(l@[i - 1])),
        decreases l@.len() - i,
    {
        let c = l[i];
        let ghost prev = l@.take(i as int);
        assert(l@.take(i + 1).drop_last() =~= prev);
        assert(l@.take(i + 1).last() == c);
        assert(i > 0 ==> l@.take(i + 1)[i - 1] == l@[i - 1]);
        if crate::search::space(c) {
            if cur.len() > 0 {
                let ghost before = lines_of(out@);
                out.push(cur);
                cur = Vec::new();
                assert(lines_of(out@) =~= before.push(lines_of(out@).last()));
            }
        } else {
            let ghost old_cur = cur@;
            cur.push(c);
            proof {
                if old_cur.len() == 0 {
                    assert(cur@ =~= seq![c]);
                } else {
                    assert(lines_of(out@).push(old_cur).update(
                        lines_of(out@).len() as int,
                        old_cur.push(c),
                    ) =~= lines_of(out@).push(cur@));
                }
            }
        }
        i = i + 1;
    }
    assert(l@.take(l@.len() as int) =~= l@);
    if cur.len() > 0 {
        let ghost before = lines_of(out@);
        let ghost last = cur@;
        out.push(cur);
        assert(lines_of(out@) =~= before.push(last));
    }
    out
}

/// Whether `a` and `b` hold the same characters.
fn same_chars(a: &Vec<char>, b: &str) -> (r: bool)
    ensures
        r == (a@ == b@),
{
    let bc = chars_of(b);
    if a.len() != bc.len() {
        return false;
    }
    let mut i: usize = 0;
    while i < a.len()
        invariant
            i <= a@.len(),
            a@.len() == bc@.len(),
            bc@ == b@,
            forall|j: int| 0 <= j < i ==> a@[j] == bc@[j],
        decreases a@.len() - i,
    {
        if a[i] != bc[i] {
            assert(a@[i as int] != bc@[i as int]);
            return false;
        }
        i = i + 1;
    }
    assert(a@ =~= bc@);
    true
}

/// The words from index `from` on, joined by single spaces.
fn join_from(ws: &Vec<Vec<char>>, from: usize) -> (r: Vec<char>)
    requires
        from <= ws@.len(),
    ensures
        r@ == join_spaced(lines_of(ws@).skip(from as int)),
{
    let mut out: Vec<char> = Vec::new();
    let mut i: usize = from;
    while i < ws.len()
        invariant
            from <= i <= ws@.len(),
            out@ == join_spaced(lines_of(ws@).subrange(from as int, i as int)),
        decreases ws@.len() - i,
    {
        let ghost prev = lines_of(ws@).subrange(from as int, i as int);
        if i > from {
            out.push(' ');
        }
        let w = &ws[i];
        let mut j: usize = 0;
        let ghost base = out@;
        while j < w.len()
            invariant
                j <= w@.len(),
                out@ == base + w@.take(j as int),
            decreases w@.len() - j,
        {
            out.push(w[j]);
            j = j + 1;
            assert(out@ =~= base + w@.take(j as int));
        }
        assert(w@.take(w@.len() as int) =~= w@);
        i = i + 1;
        let ghost cur = lines_of(ws@).subrange(from as int, i as int);
        assert(cur.drop_last() =~= prev);
        assert(cur.last() == w@);
        if i == from + 1 {
            assert(out@ =~= join_spaced(cur));
        }
    }
    assert(lines_of(ws@).subrange(from as int, ws@.len() as int) =~= lines_of(ws@).skip(
        from as int,
    ));
    out
}

/// The word without its leading slashes.
fn strip_leading_slashes(w: &Vec<char>) -> (r: Vec<char>)
    ensures
        r@ == strip_slashes(w@),
{
    let mut k: usize = 0;
    assert(w@.skip(0) =~= w@);
    while k < w.len() && w[k] == '/'
        invariant
            k <= w@.len(),
            strip_slashes(w@) == strip_slashes(w@.skip(k as int)),
        decreases w@.len() - k,
    {
        assert(w@.skip(k as int).skip(1) =~= w@.skip(k + 1));
        k = k + 1;
    }
    let mut out: Vec<char> = Vec::new();
    let mut i: usize = k;
    while i < w.len()
        invariant
            k <= i <= w@.len(),
            out@ == w@.subrange(k as int, i as int),
        decreases w@.len() - i,
    {
        out.push(w[i]);
        i = i + 1;
        assert(out@ =~= w@.subrange(k as int, i as int));
    }
    assert(out@ =~= w@.skip(k as int));
    out
}

/// What a command line asks for. The first word picks the command: `o`
/// opens the files named after it, `theme` opens the theme file, `set`
/// shows the theme chooser, `/word` searches, `count word` counts words,
/// `list` lists the documents, `clundo` forgets the undo history, `q`
/// closes, `wq` saves and closes, `w` saves and `cl` leaves.
pub open spec fn command_meaning(cmd: Seq<char>) -> Result<(nat, Seq<char>), CommandError> {
    let ws = words(cmd);
    let c = if ws.len() > 0 {
        ws[0]
    } else {
        Seq::<char>::empty()
    };
    if c == "o"@ {
        Ok((0, join_spaced(ws.skip(1))))
    } else if c == "theme"@ {
        Ok((1, Seq::empty()))
    } else if c == "set"@ {
        Ok((2, Seq::empty()))
    } else if c.len() > 0 && c[0] == '/' {
        Ok((3, strip_slashes(c)))
    } else if c == "count"@ {
        if ws.len() > 1 {
            Ok((4, ws[1]))
        } else {
            Err(CommandError::MissingWord)
        }
    } else if c == "list"@ {
        Ok((5, Seq::empty()))
    } else if c == "clundo"@ {
        Ok((6, Seq::empty()))
    } else if c == "q"@ {
        Ok((7, Seq::empty()))
    } else if c == "wq"@ {
        Ok((8, Seq::empty()))
    } else if c == "w"@ {
        Ok((9, Seq::empty()))
    } else if c == "cl"@ {
        Ok((10, Seq::empty()))
    } else {
        Err(CommandError::Invalid)
    }
}

/// The command's number in `command_meaning`, and its text argument.
pub open spec fn op_meaning(op: Operations) -> (nat, Seq<char>) {
    match op {
        Operations::Open(s) => (0, s@),
        Operations::OpenTheme => (1, Seq::empty()),
        Operations::SelectTheme => (2, Seq::empty()),
        Operations::Find(s) => (3, s@),
        Operations::WordCount(s) => (4, s@),
        Operations::List => (5, Seq::empty()),
        Operations::ClearHistory => (6, Seq::empty()),
        Operations::Close => (7, Seq::empty()),
        Operations::SaveAndClose => (8, Seq::empty()),
        Operations::Save => (9, Seq::empty()),
        Operations::Exit => (10, Seq::empty()),
        _ => (11, Seq::empty()),
    }
}

/// Reads a command line.
pub fn parse_command(cmd: &str) -> (r: Result<Operations, CommandError>)
    ensures
        r is Ok <==> command_meaning(cmd@) is Ok,
        r is Ok ==> op_meaning(r->Ok_0) == command_meaning(cmd@)->Ok_0,
        r is Err ==> r == Err::<Operations, CommandError>(command_meaning(cmd@)->Err_0),
{
    let ws = split_words(&chars_of(cmd));
    let ghost sw = words(cmd@);
    let empty: Vec<char> = Vec::new();
    let c: &Vec<char> = if ws.len() > 0 {
        &ws[0]
    } else {
        &empty
    };
    assert(c@ == if sw.len() > 0 {
        sw[0]
    } else {
        Seq::<char>::empty()
    });
    if same_chars(c, "o") {
        proof {
            reveal_strlit("o");
        }
        let rest = join_from(&ws, 1);
        Ok(Operations::Open(string_of(&rest)))
    } else if same_chars(c, "theme") {
        Ok(Operations::OpenTheme)
    } else if same_chars(c, "set") {
        Ok(Operations::SelectTheme)
    } else if c.len() > 0 && c[0] == '/' {
        Ok(Operations::Find(string_of(&strip_leading_slashes(c))))
    } else if same_chars(c, "count") {
        if ws.len() > 1 {
            assert(ws@[1]@ == sw[1]);
            Ok(Operations::WordCount(string_of(&ws[1])))
        } else {
            Err(CommandError::MissingWord)
        }
    } else if same_chars(c, "list") {
        Ok(Operations::List)
    } else if same_chars(c, "clundo") {
        Ok(Operations::ClearHistory)
    } else if same_chars(c, "q") {
        Ok(Operations::Close)
    } else if same_chars(c, "wq") {
        Ok(Operations::SaveAndClose)
    } else if same_chars(c, "w") {
        Ok(Operations::Save)
    } else if same_chars(c, "cl") {
        Ok(Operations::Exit)
    } else {
        Err(CommandError::Invalid)
    }
}

} // verus!
