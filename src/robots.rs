use vstd::prelude::*;
use vstd::string::*;

use crate::links::{processed, resolve, url_path};
use crate::normalize::{has_prefix, root_segment, starts_with, strip_to_root_path};
use crate::url_set::UrlSet;

verus! {

/// The index of the first line feed of `s`, or its length if it has none.
pub open spec fn first_newline(s: Seq<char>) -> nat
    decreases s.len(),
{
    if s.len() == 0 || s[0] == '\n' {
        0
    } else {
        1 + first_newline(s.drop_first())
    }
}

/// A line without the carriage return that may end it.
pub open spec fn strip_cr(line: Seq<char>) -> Seq<char> {
    if line.len() > 0 && line.last() == '\r' {
        line.drop_last()
    } else {
        line
    }
}

/// The root path segment that one line of a robots file excludes, if any:
/// the line starts with `Disallow: ` and what follows has a segment.
pub open spec fn line_rule(line: Seq<char>) -> Option<Seq<char>> {
    let l = strip_cr(line);
    if has_prefix(l, "Disallow: "@) {
        root_segment(l.skip("Disallow: "@.len() as int))
    } else {
        None
    }
}

pub open spec fn option_set(o: Option<Seq<char>>) -> Set<Seq<char>> {
    match o {
        Some(x) => set![x],
        None => Set::empty(),
    }
}

/// The root path segments that a robots file excludes, line by line.
pub open spec fn robots_rules(body: Seq<char>) -> Set<Seq<char>>
    decreases body.len(),
{
    let k = first_newline(body);
    if k < body.len() {
        option_set(line_rule(body.subrange(0, k as int))).union(
            robots_rules(body.subrange(k as int + 1, body.len() as int)),
        )
    } else {
        option_set(line_rule(body))
    }
}

proof fn lemma_first_newline(s: Seq<char>, k: int)
    requires
        0 <= k <= s.len(),
        forall|j: int| 0 <= j < k ==> s[j] != '\n',
        k == s.len() || s[k] == '\n',
    ensures
        first_newline(s) == k,
    decreases k,
{
    if k > 0 {
        assert forall|j: int| 0 <= j < k - 1 implies s.drop_first()[j] != '\n' by {
            assert(s.drop_first()[j] == s[j + 1]);
        }
        lemma_first_newline(s.drop_first(), k - 1);
    }
}

proof fn lemma_first_newline_bounds(s: Seq<char>)
    ensures
        first_newline(s) <= s.len(),
        forall|j: int| 0 <= j < first_newline(s) ==> s[j] != '\n',
        first_newline(s) < s.len() ==> s[first_newline(s) as int] == '\n',
    decreases s.len(),
{
    if s.len() > 0 && s[0] != '\n' {
        lemma_first_newline_bounds(s.drop_first());
        assert forall|j: int| 0 <= j < first_newline(s) implies s[j] != '\n' by {
            if j > 0 {
                assert(s[j] == s.drop_first()[j - 1]);
            }
        }
    }
}

/// Whether `body[start..end]` is one whole line of `body`.
pub open spec fn is_line(body: Seq<char>, start: int, end: int) -> bool {
    &&& 0 <= start <= end <= body.len()
    &&& start == 0 || body[start - 1] == '\n'
    &&& end == body.len() || body[end] == '\n'
    &&& forall|j: int| start <= j < end ==> body[j] != '\n'
}

/// The segment that any one line of a robots file excludes is among the
/// file's rules.
pub proof fn lemma_line_rule_in_robots_rules(body: Seq<char>, start: int, end: int)
    requires
        is_line(body, start, end),
        line_rule(body.subrange(start, end)) is Some,
    ensures
        robots_rules(body).contains(line_rule(body.subrange(start, end))->0),
    decreases body.len(),
{
    let k = first_newline(body) as int;
    lemma_first_newline_bounds(body);
    if start == 0 {
        lemma_first_newline(body, end);
        if end == body.len() {
            assert(body.subrange(0, end) =~= body);
        }
    } else {
        assert(k <= start - 1);
        let rest = body.subrange(k + 1, body.len() as int);
        let s2 = start - k - 1;
        let e2 = end - k - 1;
        assert(rest.subrange(s2, e2) =~= body.subrange(start, end));
        assert(s2 == 0 || rest[s2 - 1] == body[start - 1]);
        assert(e2 == rest.len() || rest[e2] == body[end]);
        assert forall|j: int| s2 <= j < e2 implies rest[j] != '\n' by {
            assert(rest[j] == body[j + k + 1]);
        }
        lemma_line_rule_in_robots_rules(rest, s2, e2);
    }
}

/// Once a robots file's rules are among the excluded segments, a line
/// `Disallow: <path>` of it keeps out every href whose resolved path has the
/// same root segment.
pub proof fn lemma_disallowed_line_excludes(
    body: Seq<char>,
    start: int,
    end: int,
    href: Seq<char>,
    root: Seq<char>,
    excluded: Set<Seq<char>>,
)
    requires
        is_line(body, start, end),
        robots_rules(body).subset_of(excluded),
        resolve(href, root) is Some,
        line_rule(body.subrange(start, end)) is Some,
        root_segment(url_path(resolve(href, root)->0)) == line_rule(body.subrange(start, end)),
    ensures
        processed(href, root, excluded) is None,
{
    lemma_line_rule_in_robots_rules(body, start, end);
}

/// The segment that one line excludes, if any.
fn disallow_rule(line: &str) -> (r: Option<String>)
    ensures
        r.deep_view() == line_rule(line@),
{
    let n = line.unicode_len();
    let l = if n > 0 && line.get_char(n - 1) == '\r' {
        line.substring_char(0, n - 1)
    } else {
        line
    };
    proof {
        assert(l@ =~= strip_cr(line@));
    }
    if !starts_with(l, "Disallow: ") {
        return None;
    }
    let p = "Disallow: ".unicode_len();
    let rest = l.substring_char(p, l.unicode_len());
    proof {
        assert(rest@ =~= l@.skip(p as int));
    }
    strip_to_root_path(rest)
}

/// Adds to `set` the root path segments that a robots file excludes.
pub fn add_robots_rules(body: &str, set: &mut UrlSet)
    requires
        old(set).wf(),
    ensures
        final(set).wf(),
        final(set)@ == old(set)@.union(robots_rules(body@)),
{
    let n = body.unicode_len();
    let mut start: usize = 0;
    let mut i: usize = 0;
    proof {
        assert(body@.subrange(0, n as int) =~= body@);
    }
    while i < n
        invariant
            start <= i <= n,
            n == body@.len(),
            set.wf(),
            forall|j: int| start <= j < i ==> body@[j] != '\n',
            set@.union(robots_rules(body@.subrange(start as int, n as int))) == old(set)@.union(
                robots_rules(body@),
            ),
        decreases n - i,
    {
        if body.get_char(i) == '\n' {
            let line = body.substring_char(start, i);
            let ghost rest = body@.subrange(start as int, n as int);
            let ghost before = set@;
            proof {
                assert forall|j: int| 0 <= j < i - start implies rest[j] != '\n' by {
                    assert(rest[j] == body@[start + j]);
                }
                lemma_first_newline(rest, i - start);
                assert(rest.subrange(0, i - start) =~= line@);
                assert(rest.subrange(i - start + 1, rest.len() as int) =~= body@.subrange(
                    i + 1,
                    n as int,
                ));
            }
            match disallow_rule(line) {
                Some(seg) => {
                    set.insert(seg);
                },
                None => {},
            }
            proof {
                assert(set@ =~= before.union(option_set(line_rule(line@))));
                assert(set@.union(robots_rules(body@.subrange(i + 1, n as int))) =~= before.union(
                    robots_rules(rest),
                ));
            }
            start = i + 1;
        }
        i = i + 1;
    }
    let line = body.substring_char(start, n);
    let ghost rest = body@.subrange(start as int, n as int);
    let ghost before = set@;
    proof {
        assert forall|j: int| 0 <= j < n - start implies rest[j] != '\n' by {
            assert(rest[j] == body@[start + j]);
        }
        lemma_first_newline(rest, n - start);
        assert(rest =~= line@);
    }
    match disallow_rule(line) {
        Some(seg) => {
            set.insert(seg);
        },
        None => {},
    }
    proof {
        assert(set@ =~= before.union(robots_rules(rest)));
    }
}

} // verus!
