//! Small verified text utilities shared across the crate.

use vstd::prelude::*;

use vstd::string::StringExecFns;

verus! {

/// Tests two string slices for equality, character by character.
pub fn str_eq(a: &str, b: &str) -> (r: bool)
    ensures
        r == (a@ == b@),
{
    let na = a.unicode_len();
    let nb = b.unicode_len();
    if na != nb {
        proof {
            assert(a@ != b@);
        }
        return false;
    }
    let mut i: usize = 0;
    while i < na
        invariant
            i <= na == a@.len() == b@.len(),
            forall|j: int| 0 <= j < i ==> a@[j] == b@[j],
        decreases na - i,
    {
        if a.get_char(i) != b.get_char(i) {
            return false;
        }
        i = i + 1;
    }
    proof {
        assert(a@ =~= b@);
    }
    true
}

/// Whether `s` begins with `p`.
pub open spec fn spec_starts_with(s: Seq<char>, p: Seq<char>) -> bool {
    s.len() >= p.len() && s.subrange(0, p.len() as int) == p
}

/// Tests whether `s` begins with `p`.
pub fn str_starts_with(s: &str, p: &str) -> (r: bool)
    ensures
        r == spec_starts_with(s@, p@),
{
    let n = p.unicode_len();
    if s.unicode_len() < n {
        proof {
            assert(!spec_starts_with(s@, p@));
        }
        return false;
    }
    let mut i: usize = 0;
    while i < n
        invariant
            i <= n == p@.len(),
            s@.len() >= p@.len(),
            forall|j: int| 0 <= j < i ==> s@[j] == p@[j],
        decreases n - i,
    {
        if s.get_char(i) != p.get_char(i) {
            proof {
                assert(s@.subrange(0, p@.len() as int)[i as int] != p@[i as int]);
            }
            return false;
        }
        i = i + 1;
    }
    proof {
        assert(s@.subrange(0, p@.len() as int) =~= p@);
    }
    true
}


/// A line with its line ending's carriage return taken off: the final
/// carriage return goes only when one is there.
pub open spec fn strip_cr(l: Seq<char>) -> Seq<char> {
    if l.len() > 0 && l.last() == '\r' {
        l.drop_last()
    } else {
        l
    }
}

/// The lines of `s` after the already-open line `cur`: lines are split
/// at line feeds, a carriage return immediately before a line feed
/// belongs to the line ending, and a final line ending opens no empty
/// last line.
pub open spec fn spec_lines_from(s: Seq<char>, cur: Seq<char>) -> Seq<Seq<char>>
    decreases s.len(),
{
    if s.len() == 0 {
        if cur.len() == 0 {
            Seq::empty()
        } else {
            seq![cur]
        }
    } else if s[0] == '\n' {
        seq![strip_cr(cur)] + spec_lines_from(s.skip(1), Seq::empty())
    } else {
        spec_lines_from(s.skip(1), cur.push(s[0]))
    }
}

/// The lines of `s`.
pub open spec fn spec_lines(s: Seq<char>) -> Seq<Seq<char>> {
    spec_lines_from(s, Seq::empty())
}

/// Splits `s` into its lines, as `spec_lines` says.
pub fn split_lines(s: &str) -> (r: Vec<String>)
    ensures
        crate::transport::view_of_strings(r@) == spec_lines(s@),
{
    let n = s.unicode_len();
    let mut out: Vec<String> = Vec::new();
    let mut start: usize = 0;
    let mut i: usize = 0;
    proof {
        assert(s@.skip(0) =~= s@);
        assert(s@.subrange(0, 0) =~= Seq::<char>::empty());
        assert(crate::transport::view_of_strings(Seq::<String>::empty())
            =~= Seq::<Seq<char>>::empty());
    }
    while i < n
        invariant
            start <= i <= n == s@.len(),
            crate::transport::view_of_strings(out@) + spec_lines_from(
                s@.skip(i as int),
                s@.subrange(start as int, i as int),
            ) == spec_lines(s@),
        decreases n - i,
    {
        let ghost cur = s@.subrange(start as int, i as int);
        if s.get_char(i) == '\n' {
            let end = if i > start && s.get_char(i - 1) == '\r' {
                i - 1
            } else {
                i
            };
            let line = s.substring_char(start, end).to_owned();
            let ghost out0 = out@;
            out.push(line);
            proof {
                assert(s@.skip(i as int)[0] == '\n');
                assert(s@.skip(i as int).skip(1) =~= s@.skip(i as int + 1));
                if i > start && s@[i - 1] == '\r' {
                    assert(cur.last() == '\r');
                    assert(strip_cr(cur) =~= s@.subrange(start as int, i - 1));
                } else {
                    assert(strip_cr(cur) =~= cur);
                }
                crate::transport::lemma_view_of_strings_push(out0, out@.last());
                assert(out@ =~= out0.push(out@.last()));
                assert(crate::transport::view_of_strings(out@) =~= crate::transport::view_of_strings(
                    out0,
                ) + seq![strip_cr(cur)]);
                assert(s@.subrange(i as int + 1, i as int + 1) =~= Seq::<char>::empty());
                assert(crate::transport::view_of_strings(out@) + spec_lines_from(
                    s@.skip(i as int + 1),
                    Seq::empty(),
                ) =~= crate::transport::view_of_strings(out0) + (seq![strip_cr(cur)]
                    + spec_lines_from(s@.skip(i as int + 1), Seq::empty())));
            }
            start = i + 1;
        } else {
            proof {
                assert(s@.skip(i as int)[0] == s@[i as int]);
                assert(s@.skip(i as int).skip(1) =~= s@.skip(i as int + 1));
                assert(cur.push(s@[i as int]) =~= s@.subrange(start as int, i as int + 1));
            }
        }
        i = i + 1;
    }
    proof {
        assert(s@.skip(n as int) =~= Seq::<char>::empty());
    }
    if start < n {
        let line = s.substring_char(start, n).to_owned();
        let ghost out0 = out@;
        out.push(line);
        proof {
            crate::transport::lemma_view_of_strings_push(out0, out@.last());
            assert(out@ =~= out0.push(out@.last()));
            assert(crate::transport::view_of_strings(out@) =~= crate::transport::view_of_strings(
                out0,
            ) + seq![s@.subrange(start as int, n as int)]);
        }
    } else {
        proof {
            assert(s@.subrange(start as int, n as int) =~= Seq::<char>::empty());
        }
    }
    out
}

} // verus!
