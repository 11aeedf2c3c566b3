//! Splitting text into lines and comma-separated fields.
use vstd::prelude::*;

verus! {

/// Index of the first `c` in `s`, or `s.len()` when `s` holds none.
pub open spec fn first_index_of(s: Seq<char>, c: char) -> int
    decreases s.len(),
{
    if s.len() == 0 || s[0] == c {
        0
    } else {
        1 + first_index_of(s.drop_first(), c)
    }
}

/// The pieces of `s` between the occurrences of `sep`, as `str::split` yields them.
pub open spec fn fields_of(s: Seq<char>, sep: char) -> Seq<Seq<char>>
    decreases s.len(),
{
    let i = first_index_of(s, sep);
    if 0 <= i < s.len() {
        seq![s.subrange(0, i)] + fields_of(s.subrange(i + 1, s.len() as int), sep)
    } else {
        seq![s]
    }
}

/// A line without the carriage return that ended it.
pub open spec fn without_cr(l: Seq<char>) -> Seq<char> {
    if l.len() > 0 && l.last() == '\r' {
        l.drop_last()
    } else {
        l
    }
}

/// The lines of `s` as `BufRead::lines` yields them: split at each `'\n'`, a
/// `'\r'` before the `'\n'` dropped, and no empty line after a final `'\n'`.
pub open spec fn lines_of(s: Seq<char>) -> Seq<Seq<char>>
    decreases s.len(),
{
    let i = first_index_of(s, '\n');
    if s.len() == 0 {
        seq![]
    } else if 0 <= i < s.len() {
        seq![without_cr(s.subrange(0, i))] + lines_of(s.subrange(i + 1, s.len() as int))
    } else {
        seq![s]
    }
}

/// The characters of each string.
pub open spec fn views_of(v: Seq<String>) -> Seq<Seq<char>> {
    v.map_values(|t: String| t@)
}

/// Where `c` first stands in a text whose part before some `c` holds none.
pub(crate) proof fn lemma_first_index_of(a: Seq<char>, b: Seq<char>, c: char)
    requires
        !a.contains(c),
    ensures
        first_index_of(a + seq![c] + b, c) == a.len(),
        first_index_of(a, c) == a.len(),
    decreases a.len(),
{
    if a.len() > 0 {
        assert(a[0] != c);
        assert((a + seq![c] + b).drop_first() =~= a.drop_first() + seq![c] + b);
        assert(!a.drop_first().contains(c)) by {
            if a.drop_first().contains(c) {
                let j = choose|j: int| 0 <= j < a.drop_first().len() && a.drop_first()[j] == c;
                assert(a[j + 1] == c);
            }
        }
        lemma_first_index_of(a.drop_first(), b, c);
    } else {
        assert(a + seq![c] + b =~= seq![c] + b);
    }
}

/// Relies on `str::split_once` with a `char` pattern: the text before and after
/// the first occurrence of `c`, or `None` when there is none.
#[verifier::external_body]
pub(crate) fn split_once_char(s: &str, c: char) -> (r: Option<(&str, &str)>)
    ensures
        match r {
            Some((a, b)) => s@ == a@ + seq![c] + b@ && !a@.contains(c),
            None => !s@.contains(c),
        },
{
    s.split_once(c)
}

/// Relies on `str::strip_suffix` with a `char` pattern: `s` without its last
/// character when that is `c`, else `None`.
#[verifier::external_body]
fn strip_suffix_char(s: &str, c: char) -> (r: Option<&str>)
    ensures
        match r {
            Some(p) => s@.len() > 0 && s@.last() == c && p@ == s@.drop_last(),
            None => !(s@.len() > 0 && s@.last() == c),
        },
{
    s.strip_suffix(c)
}

/// Splits `s` at every `sep`, keeping empty pieces.
pub fn split_fields(s: &str, sep: char) -> (r: Vec<String>)
    ensures
        views_of(r@) == fields_of(s@, sep),
{
    let mut out: Vec<String> = Vec::new();
    let mut rest: &str = s;
    loop
        invariant
            views_of(out@) + fields_of(rest@, sep) == fields_of(s@, sep),
        decreases rest@.len(),
    {
        match split_once_char(rest, sep) {
            Some((a, b)) => {
                proof {
                    lemma_first_index_of(a@, b@, sep);
                    assert(rest@.subrange(0, a@.len() as int) =~= a@);
                    assert(rest@.subrange(a@.len() as int + 1, rest@.len() as int) =~= b@);
                }
                let piece = a.to_owned();
                proof {
                    assert(views_of(out@.push(piece)) =~= views_of(out@) + seq![a@]);
                }
                out.push(piece);
                proof {
                    assert(views_of(out@) + fields_of(b@, sep) =~= fields_of(s@, sep));
                }
                rest = b;
            },
            None => {
                proof {
                    lemma_first_index_of(rest@, seq![], sep);
                }
                let piece = rest.to_owned();
                proof {
                    assert(views_of(out@.push(piece)) =~= views_of(out@) + seq![rest@]);
                }
                out.push(piece);
                return out;
            },
        }
    }
}

/// Splits `s` into lines as `BufRead::lines` does.
pub fn split_lines(s: &str) -> (r: Vec<String>)
    ensures
        views_of(r@) == lines_of(s@),
{
    let mut out: Vec<String> = Vec::new();
    let mut rest: &str = s;
    loop
        invariant
            views_of(out@) + lines_of(rest@) == lines_of(s@),
        decreases rest@.len(),
    {
        if rest.is_empty() {
            assert(views_of(out@) + lines_of(rest@) =~= views_of(out@));
            return out;
        }
        match split_once_char(rest, '\n') {
            Some((a, b)) => {
                proof {
                    lemma_first_index_of(a@, b@, '\n');
                    assert(rest@.subrange(0, a@.len() as int) =~= a@);
                    assert(rest@.subrange(a@.len() as int + 1, rest@.len() as int) =~= b@);
                }
                let line = match strip_suffix_char(a, '\r') {
                    Some(p) => p,
                    None => a,
                };
                assert(line@ == without_cr(a@));
                let piece = line.to_owned();
                proof {
                    assert(views_of(out@.push(piece)) =~= views_of(out@) + seq![line@]);
                }
                out.push(piece);
                proof {
                    assert(views_of(out@) + lines_of(b@) =~= lines_of(s@));
                }
                rest = b;
            },
            None => {
                proof {
                    lemma_first_index_of(rest@, seq![], '\n');
                }
                let piece = rest.to_owned();
                proof {
                    assert(views_of(out@.push(piece)) =~= views_of(out@) + seq![rest@]);
                }
                out.push(piece);
                return out;
            },
        }
    }
}

} // verus!
