use vstd::prelude::*;
use vstd::string::*;

verus! {

/// A URL in canonical form: exactly one trailing `/` removed, if there is one.
pub open spec fn canonical(s: Seq<char>) -> Seq<char> {
    if s.len() > 0 && s.last() == '/' {
        s.drop_last()
    } else {
        s
    }
}

/// Whether `s` ends in two slashes, the one shape on which `canonical` is not idempotent.
pub open spec fn ends_with_double_slash(s: Seq<char>) -> bool {
    s.len() >= 2 && s[s.len() - 1] == '/' && s[s.len() - 2] == '/'
}

pub open spec fn has_prefix(s: Seq<char>, prefix: Seq<char>) -> bool {
    prefix.len() <= s.len() && s.subrange(0, prefix.len() as int) == prefix
}

/// Drops the leading slashes of a path.
pub open spec fn skip_slashes(p: Seq<char>) -> Seq<char>
    decreases p.len(),
{
    if p.len() > 0 && p[0] == '/' {
        skip_slashes(p.drop_first())
    } else {
        p
    }
}

/// The characters of `p` up to its first slash.
pub open spec fn first_segment(p: Seq<char>) -> Seq<char>
    decreases p.len(),
{
    if p.len() == 0 || p[0] == '/' {
        Seq::empty()
    } else {
        seq![p[0]] + first_segment(p.drop_first())
    }
}

/// `/` followed by the first non-empty slash-delimited segment of `p`, if it has one.
pub open spec fn root_segment(p: Seq<char>) -> Option<Seq<char>> {
    let rest = skip_slashes(p);
    if rest.len() == 0 {
        None
    } else {
        Some(seq!['/'] + first_segment(rest))
    }
}

/// Canonicalizing twice is canonicalizing once, for every string that does
/// not end in two slashes.
pub proof fn lemma_canonical_idempotent(s: Seq<char>)
    requires
        !ends_with_double_slash(s),
    ensures
        canonical(canonical(s)) == canonical(s),
{
}

/// Removes one trailing `/` from a link.
pub fn trim_trailing_slash(link_to_trim: String) -> (r: String)
    ensures
        r@ == canonical(link_to_trim@),
{
    let n = link_to_trim.as_str().unicode_len();
    if n > 0 && link_to_trim.as_str().get_char(n - 1) == '/' {
        let kept = link_to_trim.as_str().substring_char(0, n - 1);
        proof {
            assert(kept@ =~= link_to_trim@.drop_last());
        }
        kept.to_owned()
    } else {
        link_to_trim
    }
}

/// Whether `s` starts with `prefix`.
pub fn starts_with(s: &str, prefix: &str) -> (r: bool)
    ensures
        r == has_prefix(s@, prefix@),
{
    let n = s.unicode_len();
    let m = prefix.unicode_len();
    if m > n {
        return false;
    }
    let mut i: usize = 0;
    while i < m
        invariant
            m <= n,
            n == s@.len(),
            m == prefix@.len(),
            i <= m,
            forall|k: int| 0 <= k < i ==> s@[k] == prefix@[k],
        decreases m - i,
    {
        if s.get_char(i) != prefix.get_char(i) {
            proof {
                assert(s@.subrange(0, m as int)[i as int] != prefix@[i as int]);
            }
            return false;
        }
        i = i + 1;
    }
    proof {
        assert(s@.subrange(0, m as int) =~= prefix@);
    }
    true
}

/// `/` followed by the first non-empty segment of a path, if any.
pub fn strip_to_root_path(link: &str) -> (r: Option<String>)
    ensures
        r.deep_view() == root_segment(link@),
{
    let n = link.unicode_len();
    let mut i: usize = 0;
    proof {
        assert(link@.subrange(0, n as int) =~= link@);
    }
    while i < n && link.get_char(i) == '/'
        invariant
            n == link@.len(),
            i <= n,
            skip_slashes(link@) == skip_slashes(link@.subrange(i as int, n as int)),
        decreases n - i,
    {
        proof {
            assert(link@.subrange(i as int, n as int).drop_first() =~= link@.subrange(
                i + 1,
                n as int,
            ));
        }
        i = i + 1;
    }
    if i == n {
        proof {
            assert(link@.subrange(i as int, n as int).len() == 0);
        }
        return None;
    }
    let start = i;
    let mut j: usize = i;
    while j < n && link.get_char(j) != '/'
        invariant
            n == link@.len(),
            start <= j <= n,
            first_segment(link@.subrange(start as int, n as int)) == link@.subrange(
                start as int,
                j as int,
            ) + first_segment(link@.subrange(j as int, n as int)),
        decreases n - j,
    {
        proof {
            let t = link@.subrange(j as int, n as int);
            assert(t.drop_first() =~= link@.subrange(j + 1, n as int));
            assert(link@.subrange(start as int, j + 1) =~= link@.subrange(start as int, j as int)
                + seq![t[0]]);
            assert(first_segment(t) == seq![t[0]] + first_segment(t.drop_first()));
            assert((link@.subrange(start as int, j as int) + seq![t[0]]) + first_segment(
                t.drop_first(),
            ) =~= link@.subrange(start as int, j as int) + (seq![t[0]] + first_segment(
                t.drop_first(),
            )));
        }
        j = j + 1;
    }
    proof {
        assert(first_segment(link@.subrange(j as int, n as int)) =~= Seq::<char>::empty());
        assert(link@.subrange(start as int, j as int) + Seq::<char>::empty() =~= link@.subrange(
            start as int,
            j as int,
        ));
    }
    let segment = link.substring_char(start, j);
    let mut r = "/".to_owned();
    proof {
        reveal_strlit("/");
    }
    r.append(segment);
    proof {
        assert(r@ =~= seq!['/'] + first_segment(skip_slashes(link@)));
    }
    Some(r)
}

} // verus!
