//! File names and permission strings, as the status and tab bars show them.
use vstd::prelude::*;
use crate::text::{chars_of, string_of};

verus! {

/// The part of `p` after its last `/`; all of it where it holds none.
pub open spec fn base_name(p: Seq<char>) -> Seq<char>
    decreases p.len(),
{
    if p.len() == 0 || p.last() == '/' {
        Seq::empty()
    } else {
        base_name(p.drop_last()).push(p.last())
    }
}

/// The file name at the end of `path`.
pub fn get_file_name(path: String) -> (r: String)
    ensures
        r@ == base_name(path@),
{
    let p = chars_of(path.as_str());
    let mut start: usize = p.len();
    assert(p@.take(start as int) =~= p@);
    assert(p@.skip(start as int) =~= Seq::<char>::empty());
    assert(base_name(p@) + Seq::<char>::empty() =~= base_name(p@));
    while start > 0 && p[start - 1] != '/'
        invariant
            start <= p@.len(),
            base_name(p@) == base_name(p@.take(start as int)) + p@.skip(start as int),
        decreases start,
    {
        let ghost t = p@.take(start as int);
        assert(t.drop_last() =~= p@.take(start - 1));
        assert(t.last() == p@[start - 1]);
        assert(p@.skip(start - 1) =~= seq![p@[start - 1]] + p@.skip(start as int));
        assert(base_name(p@.take(start - 1)).push(p@[start - 1]) + p@.skip(start as int)
            =~= base_name(p@.take(start - 1)) + p@.skip(start - 1));
        start = start - 1;
    }
    let mut name: Vec<char> = Vec::new();
    let mut i: usize = start;
    while i < p.len()
        invariant
            start <= i <= p@.len(),
            name@ == p@.subrange(start as int, i as int),
        decreases p@.len() - i,
    {
        name.push(p[i]);
        i = i + 1;
        assert(name@ =~= p@.subrange(start as int, i as int));
    }
    assert(p@.take(p@.len() as int) =~= p@);
    assert(start > 0 ==> p@.take(start as int).last() == '/');
    assert(base_name(p@.take(start as int)) =~= Seq::<char>::empty());
    assert(name@ =~= Seq::<char>::empty() + p@.skip(start as int));
    string_of(&name)
}

/// `c` where `mode` has any bit of `mask` set, `-` otherwise.
pub open spec fn flag(mode: u32, mask: u32, c: char) -> char {
    if mode & mask != 0 {
        c
    } else {
        '-'
    }
}

/// The `ls -l` style permission string of a file mode: the type (`d` or
/// `-`), then read, write and execute for owner, group and others.
pub open spec fn permissions_of(mode: u32, is_dir: bool) -> Seq<char> {
    seq![
        if is_dir {
            'd'
        } else {
            '-'
        },
        flag(mode, 0o400, 'r'),
        flag(mode, 0o200, 'w'),
        flag(mode, 0o100, 'x'),
        flag(mode, 0o040, 'r'),
        flag(mode, 0o020, 'w'),
        flag(mode, 0o010, 'x'),
        flag(mode, 0o004, 'r'),
        flag(mode, 0o002, 'w'),
        flag(mode, 0o001, 'x'),
    ]
}

fn push_flag(out: &mut Vec<char>, mode: u32, mask: u32, c: char)
    ensures
        final(out)@ == old(out)@.push(flag(mode, mask, c)),
{
    if mode & mask != 0 {
        out.push(c);
    } else {
        out.push('-');
    }
}

pub fn permission_string(mode: u32, is_dir: bool) -> (r: String)
    ensures
        r@ == permissions_of(mode, is_dir),
{
    let mut out: Vec<char> = Vec::new();
    out.push(
        if is_dir {
            'd'
        } else {
            '-'
        },
    );
    push_flag(&mut out, mode, 0o400, 'r');
    push_flag(&mut out, mode, 0o200, 'w');
    push_flag(&mut out, mode, 0o100, 'x');
    push_flag(&mut out, mode, 0o040, 'r');
    push_flag(&mut out, mode, 0o020, 'w');
    push_flag(&mut out, mode, 0o010, 'x');
    push_flag(&mut out, mode, 0o004, 'r');
    push_flag(&mut out, mode, 0o002, 'w');
    push_flag(&mut out, mode, 0o001, 'x');
    assert(out@ =~= permissions_of(mode, is_dir));
    string_of(&out)
}

} // verus!
