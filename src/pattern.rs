//! The pattern primitive: a catalog pattern, stripped of its trailing
//! metadata, searched for as a regular expression anywhere in a text.

use vstd::prelude::*;
use vstd::std_specs::iter::IteratorSpec;

verus! {

broadcast use vstd::string::axiom_spec_iter;

/// Whether `p` is accepted by the regular-expression compiler.
pub uninterp spec fn regex_compiles(p: Seq<char>) -> bool;

/// Whether the compiled regular expression `p` occurs somewhere in `t`.
pub uninterp spec fn regex_found(p: Seq<char>, t: Seq<char>) -> bool;

/// Compiles `p` with `regex::Regex::new` and, when that succeeds, searches
/// `t` with `regex::Regex::is_match`. `Regex::new` returns an error exactly
/// for the patterns it does not accept; `is_match` reports an unanchored
/// match anywhere in the haystack. Neither panics.
#[verifier::external_body]
fn regex_search(p: &str, t: &str) -> (r: Option<bool>)
    ensures
        r.is_some() == regex_compiles(p@),
        r matches Some(b) ==> b == regex_found(p@, t@),
{
    match regex::Regex::new(p) {
        Ok(re) => Some(re.is_match(t)),
        Err(_) => None,
    }
}

/// Relies on `String::push`, which appends one character.
#[verifier::external_body]
pub(crate) fn push_char(s: &mut String, c: char)
    ensures
        final(s)@ == old(s)@.push(c),
{
    s.push(c)
}

/// Whether the two-character metadata delimiter `\;` starts at `i` in `p`.
pub open spec fn delim_at(p: Seq<char>, i: int) -> bool {
    0 <= i && i + 1 < p.len() && p[i] == '\\' && p[i + 1] == ';'
}

/// Whether `p` holds the metadata delimiter anywhere.
pub open spec fn has_delim(p: Seq<char>) -> bool {
    exists|i: int| delim_at(p, i)
}

/// The part of a catalog pattern before its first `\;` delimiter: the
/// whole pattern when it holds none.
pub open spec fn pattern_part(p: Seq<char>) -> Seq<char>
    decreases p.len(),
{
    if p.len() < 2 {
        p
    } else if delim_at(p, 0) {
        seq![]
    } else {
        seq![p[0]] + pattern_part(p.drop_first())
    }
}

/// Whether catalog pattern `p` hits text `t`: its part before the delimiter
/// compiles as a regular expression and occurs somewhere in `t`. A pattern
/// that does not compile hits nothing.
pub open spec fn text_matches(p: Seq<char>, t: Seq<char>) -> bool {
    regex_compiles(pattern_part(p)) && regex_found(pattern_part(p), t)
}

/// The part of `p` before its first `\;` delimiter.
pub fn strip_metadata(p: &str) -> (r: String)
    ensures
        r@ == pattern_part(p@),
{
    let cs = chars_of(p);
    let n = cs.len();
    let mut out = String::new();
    let mut i: usize = 0;
    assert(p@.subrange(0, n as int) == p@);
    assert(out@ + pattern_part(p@) == pattern_part(p@));
    while i < n
        invariant
            cs@ == p@,
            n == cs.len(),
            i <= n,
            pattern_part(p@) == out@ + pattern_part(p@.subrange(i as int, n as int)),
        decreases n - i,
    {
        let ghost rest = p@.subrange(i as int, n as int);
        if i + 1 < n && cs[i] == '\\' && cs[i + 1] == ';' {
            assert(delim_at(rest, 0));
            assert(out@ + seq![] == out@);
            return out;
        }
        if i + 1 == n {
            assert(rest.len() == 1);
            assert(rest == seq![cs[i as int]]);
        } else {
            assert(rest.drop_first() == p@.subrange(i + 1, n as int));
        }
        push_char(&mut out, cs[i]);
        i = i + 1;
        assert(out@ + pattern_part(p@.subrange(i as int, n as int)) == pattern_part(p@));
    }
    assert(p@.subrange(n as int, n as int).len() == 0);
    assert(out@ + seq![] == out@);
    out
}

/// Whether catalog pattern `maybe_regex` hits `text`. Any metadata after
/// the first `\;` is ignored; a pattern that does not compile never hits.
pub fn check_text(maybe_regex: &str, text: &str) -> (r: bool)
    ensures
        r == text_matches(maybe_regex@, text@),
{
    let effective = strip_metadata(maybe_regex);
    match regex_search(effective.as_str(), text) {
        Some(found) => found,
        None => false,
    }
}

/// The delimiter that separates a pattern from its metadata: `\;`.
pub open spec fn delim() -> Seq<char> {
    seq!['\\', ';']
}

/// A pattern without a delimiter is its own pattern part.
proof fn lemma_part_of_clean(q: Seq<char>)
    requires
        !has_delim(q),
    ensures
        pattern_part(q) == q,
    decreases q.len(),
{
    if q.len() >= 2 {
        assert(!delim_at(q, 0));
        let rest = q.drop_first();
        assert forall|i: int| !delim_at(rest, i) by {
            if delim_at(rest, i) {
                assert(delim_at(q, i + 1));
            }
        }
        lemma_part_of_clean(rest);
        assert(seq![q[0]] + rest == q);
    }
}

/// Cutting at the first delimiter of `pre + \; + suf` leaves `pre` when
/// `pre` holds no delimiter of its own.
proof fn lemma_part_of_split(pre: Seq<char>, suf: Seq<char>)
    requires
        !has_delim(pre),
    ensures
        pattern_part(pre + delim() + suf) == pre,
    decreases pre.len(),
{
    let x = pre + delim() + suf;
    if pre.len() == 0 {
        assert(x == delim() + suf);
        assert(delim_at(x, 0));
    } else {
        if pre.len() >= 2 {
            assert(!delim_at(pre, 0));
        }
        assert(!delim_at(x, 0));
        let rest = pre.drop_first();
        assert forall|i: int| !delim_at(rest, i) by {
            if delim_at(rest, i) {
                assert(delim_at(pre, i + 1));
            }
        }
        assert(x.drop_first() == rest + delim() + suf);
        lemma_part_of_split(rest, suf);
        assert(seq![pre[0]] + rest == pre);
    }
}

/// Whatever follows the first `\;` of a pattern never changes whether it
/// hits a text: `pre + \; + suf` hits exactly the texts that `pre` hits,
/// where `pre` is the part before the first delimiter.
pub proof fn law_metadata_ignored(pre: Seq<char>, suf: Seq<char>, t: Seq<char>)
    requires
        !has_delim(pre),
    ensures
        pattern_part(pre + delim() + suf) == pre,
        text_matches(pre + delim() + suf, t) == text_matches(pre, t),
{
    lemma_part_of_split(pre, suf);
    lemma_part_of_clean(pre);
}

/// A pattern whose part before the delimiter does not compile hits no text.
pub proof fn law_invalid_pattern_never_hits(p: Seq<char>, t: Seq<char>)
    requires
        !regex_compiles(pattern_part(p)),
    ensures
        !text_matches(p, t),
{
}

/// The characters of `s`, in order.
pub fn chars_of(s: &str) -> (r: Vec<char>)
    ensures
        r@ == s@,
{
    let mut it = s.chars();
    let mut r: Vec<char> = Vec::new();
    loop
        invariant
            r@ + it.remaining() == s@,
            it.decrease() is Some,
        decreases it.decrease()->0,
    {
        match it.next() {
            Some(c) => {
                r.push(c);
            },
            None => {
                return r;
            },
        }
    }
}

} // verus!
