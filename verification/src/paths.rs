//! Search-path handling: the decision half of library lookup.
//!
//! A search path is an ordered sequence of directory components separated
//! by `PATH_SEP`; an empty component denotes the current working directory.
//! For a library name without a path separator the loader probes
//! `component/name` (or `./name`) in order; a name containing `/` is opened
//! directly.  Probing the filesystem is the caller's business: it hands the
//! existence of each candidate back to `select_candidate`.

use vstd::prelude::*;
use crate::defs::LinkError;

verus! {

/// Separator between search-path components on this host.
pub const PATH_SEP: char = ':';

/// The position of the first `sep` in `s`, if any.
pub open spec fn spec_first_sep(s: Seq<char>, sep: char) -> Option<int>
    decreases s.len(),
{
    if s.len() == 0 {
        None
    } else if s[0] == sep {
        Some(0)
    } else {
        match spec_first_sep(s.subrange(1, s.len() as int), sep) {
            Some(k) => Some(k + 1),
            None => None,
        }
    }
}

/// `s` split on `sep`: always one component more than separators.
pub open spec fn spec_split(s: Seq<char>, sep: char) -> Seq<Seq<char>>
    decreases s.len(),
{
    if s.len() == 0 {
        seq![s]
    } else if s[0] == sep {
        seq![Seq::<char>::empty()] + spec_split(s.subrange(1, s.len() as int), sep)
    } else {
        let r = spec_split(s.subrange(1, s.len() as int), sep);
        seq![seq![s[0]] + r[0]] + r.subrange(1, r.len() as int)
    }
}

/// A split is never empty.
pub proof fn lemma_split_nonempty(s: Seq<char>, sep: char)
    ensures
        spec_split(s, sep).len() >= 1,
    decreases s.len(),
{
    if s.len() > 0 {
        lemma_split_nonempty(s.subrange(1, s.len() as int), sep);
    }
}

/// The first separator really is one, and nothing before it is.
pub proof fn lemma_first_sep(s: Seq<char>, sep: char)
    ensures
        spec_first_sep(s, sep) matches Some(k) ==> 0 <= k < s.len() && s[k] == sep && forall|j: int|
            0 <= j < k ==> s[j] != sep,
        spec_first_sep(s, sep) is None ==> forall|j: int| 0 <= j < s.len() ==> s[j] != sep,
    decreases s.len(),
{
    if s.len() > 0 && s[0] != sep {
        let sub = s.subrange(1, s.len() as int);
        lemma_first_sep(sub, sep);
        match spec_first_sep(sub, sep) {
            Some(k) => {
                assert(s[k + 1] == sub[k]);
                assert forall|j: int| 0 <= j < k + 1 implies s[j] != sep by {
                    if j > 0 {
                        assert(sub[j - 1] == s[j]);
                    }
                }
            },
            None => {
                assert forall|j: int| 0 <= j < s.len() implies s[j] != sep by {
                    if j > 0 {
                        assert(sub[j - 1] == s[j]);
                    }
                }
            },
        }
    }
}

/// Splitting at the first separator: head component, then the split of the
/// rest.
pub proof fn lemma_split_at_sep(s: Seq<char>, sep: char, k: int)
    requires
        0 <= k < s.len(),
        s[k] == sep,
        forall|j: int| 0 <= j < k ==> s[j] != sep,
    ensures
        spec_split(s, sep) =~= seq![s.subrange(0, k)] + spec_split(
            s.subrange(k + 1, s.len() as int),
            sep,
        ),
    decreases k,
{
    let sub = s.subrange(1, s.len() as int);
    if k == 0 {
        assert(s.subrange(0, 0) =~= Seq::<char>::empty());
        assert(s.subrange(1, s.len() as int) =~= sub);
    } else {
        assert(sub[k - 1] == s[k]);
        assert forall|j: int| 0 <= j < k - 1 implies sub[j] != sep by {
            assert(sub[j] == s[j + 1]);
        }
        lemma_split_at_sep(sub, sep, k - 1);
        lemma_split_nonempty(sub.subrange(k, sub.len() as int), sep);
        assert(sub.subrange(0, k - 1) =~= s.subrange(1, k));
        assert(sub.subrange(k, sub.len() as int) =~= s.subrange(k + 1, s.len() as int));
        assert(seq![s[0]] + s.subrange(1, k) =~= s.subrange(0, k));
        assert(spec_split(s, sep) =~= seq![s.subrange(0, k)] + spec_split(
            s.subrange(k + 1, s.len() as int),
            sep,
        ));
    }
}

/// With no separator, the whole string is the single component.
pub proof fn lemma_split_whole(s: Seq<char>, sep: char)
    requires
        forall|j: int| 0 <= j < s.len() ==> s[j] != sep,
    ensures
        spec_split(s, sep) =~= seq![s],
    decreases s.len(),
{
    if s.len() > 0 {
        let sub = s.subrange(1, s.len() as int);
        assert forall|j: int| 0 <= j < sub.len() implies sub[j] != sep by {
            assert(sub[j] == s[j + 1]);
        }
        lemma_split_whole(sub, sep);
        lemma_split_nonempty(sub, sep);
        assert(seq![s[0]] + sub =~= s);
        assert(spec_split(s, sep) =~= seq![s]);
    }
}

/// Splits `s` on `sep`.
pub fn split_string(s: &str, sep: char) -> (r: Vec<String>)
    ensures
        r.deep_view() == spec_split(s@, sep),
    decreases s@.len(),
{
    let n = s.unicode_len();
    let mut i: usize = 0;
    while i < n
        invariant
            n == s@.len(),
            i <= n,
            forall|j: int| 0 <= j < i ==> s@[j] != sep,
        decreases n - i,
    {
        if s.get_char(i) == sep {
            proof {
                lemma_split_at_sep(s@, sep, i as int);
            }
            let head = s.substring_char(0, i).to_owned();
            let rest = s.substring_char(i + 1, n);
            let r = split_string(rest, sep);
            let mut out: Vec<String> = Vec::new();
            out.push(head);
            proof {
                assert(out.deep_view() =~~= seq![s@.subrange(0, i as int)] + r.deep_view().take(0));
            }
            let mut k: usize = 0;
            while k < r.len()
                invariant
                    k <= r@.len(),
                    out@.len() == k + 1,
                    out.deep_view() =~~= seq![s@.subrange(0, i as int)] + r.deep_view().take(
                        k as int,
                    ),
                decreases r@.len() - k,
            {
                let piece = r[k].clone();
                proof {
                    assert(piece@ == r.deep_view()[k as int]);
                }
                out.push(piece);
                proof {
                    assert(out@.len() == k + 2);
                    assert(out.deep_view().len() == k + 2);
                    assert forall|j: int| 0 <= j < k + 2 implies out.deep_view()[j] == (
                    seq![s@.subrange(0, i as int)] + r.deep_view().take(k + 1))[j] by {
                        if j < k + 1 {
                            assert(out.deep_view()[j] == (seq![s@.subrange(0, i as int)]
                                + r.deep_view().take(k as int))[j]);
                        } else {
                            assert(out@[j] == piece);
                        }
                    }
                    assert(out.deep_view() =~~= seq![s@.subrange(0, i as int)] + r.deep_view().take(
                        k + 1,
                    ));
                }
                k = k + 1;
            }
            proof {
                assert(r.deep_view().take(r.deep_view().len() as int) =~~= r.deep_view());
                assert(out.deep_view() =~~= spec_split(s@, sep));
            }
            return out;
        }
        i = i + 1;
    }
    proof {
        lemma_split_whole(s@, sep);
    }
    let mut out: Vec<String> = Vec::new();
    out.push(s.to_owned());
    proof {
        assert(out.deep_view() =~~= seq![s@]);
    }
    out
}

/// The candidate path for one search-path component: `./name` for an empty
/// component, `component/name` otherwise.
pub open spec fn spec_candidate(part: Seq<char>, name: Seq<char>) -> Seq<char> {
    if part.len() == 0 {
        seq!['.', '/'] + name
    } else {
        part + seq!['/'] + name
    }
}

/// The ordered candidate paths of a library name over a search path.
pub open spec fn spec_candidates(library_path: Seq<char>, name: Seq<char>) -> Seq<Seq<char>> {
    spec_split(library_path, PATH_SEP).map_values(|p: Seq<char>| spec_candidate(p, name))
}

/// Builds one candidate path.
pub fn candidate(part: &String, name: &str) -> (r: String)
    ensures
        r@ == spec_candidate(part@, name@),
{
    proof {
        reveal_strlit("./");
        reveal_strlit("/");
    }
    if part.as_str().unicode_len() == 0 {
        let mut out = String::from_str("./");
        out.append(name);
        proof {
            assert(out@ =~= spec_candidate(part@, name@));
        }
        out
    } else {
        let mut out = part.clone();
        out.append("/");
        out.append(name);
        proof {
            assert(out@ =~= spec_candidate(part@, name@));
        }
        out
    }
}

/// Whether `name` holds a path separator `/`, so it is opened directly
/// rather than searched for.
pub fn is_direct_path(name: &str) -> (r: bool)
    ensures
        r == exists|i: int| 0 <= i < name@.len() && name@[i] == '/',
{
    let n = name.unicode_len();
    let mut i: usize = 0;
    while i < n
        invariant
            n == name@.len(),
            i <= n,
            forall|j: int| 0 <= j < i ==> name@[j] != '/',
        decreases n - i,
    {
        if name.get_char(i) == '/' {
            return true;
        }
        i = i + 1;
    }
    false
}

/// Picks the first candidate that exists, given one existence bit per
/// candidate; `NotFound` carries the library's name when none does.
pub fn select_candidate(candidates: &Vec<String>, exists_bits: &Vec<bool>, name: &str) -> (r:
    Result<String, LinkError>)
    requires
        candidates@.len() == exists_bits@.len(),
    ensures
        match r {
            Ok(p) => exists|i: int|
                0 <= i < candidates@.len() && exists_bits@[i] && p@ == candidates@[i]@ && forall|
                    j: int,
                |
                    0 <= j < i ==> !exists_bits@[j],
            Err(e) => (e matches LinkError::NotFound(n) && n@ == name@) && forall|j: int|
                0 <= j < exists_bits@.len() ==> !exists_bits@[j],
        },
{
    let mut i: usize = 0;
    while i < candidates.len()
        invariant
            candidates@.len() == exists_bits@.len(),
            i <= candidates@.len(),
            forall|j: int| 0 <= j < i ==> !exists_bits@[j],
        decreases candidates@.len() - i,
    {
        if exists_bits[i] {
            return Ok(candidates[i].clone());
        }
        i = i + 1;
    }
    Err(LinkError::NotFound(name.to_owned()))
}

} // verus!
