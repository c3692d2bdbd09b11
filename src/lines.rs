//! Reading the list of pages to scan: one URL per line.

use crate::pattern::{chars_of, push_char};
use vstd::prelude::*;

verus! {

#[verifier::external_type_specification]
#[verifier::external_body]
pub struct ExUrl(url::Url);

/// Whether `s` parses as an absolute URL.
pub uninterp spec fn url_parses(s: Seq<char>) -> bool;

/// Relies on `url::Url::parse`, which returns the URL when `s` is an
/// absolute URL and an error otherwise.
#[verifier::external_body]
fn parse_url(s: &str) -> (r: Option<url::Url>)
    ensures
        r is Some <==> url_parses(s@),
{
    url::Url::parse(s).ok()
}

/// The pieces of `s` between newlines: one more than it has newlines.
pub open spec fn pieces(s: Seq<char>) -> Seq<Seq<char>>
    decreases s.len(),
{
    if s.len() == 0 {
        seq![seq![]]
    } else {
        let p = pieces(s.drop_last());
        if s.last() == '\n' {
            p.push(seq![])
        } else {
            p.update(p.len() - 1, p.last().push(s.last()))
        }
    }
}

/// The lines of `s`: the pieces between newlines, less a last one that is
/// empty (a final newline ends the last line rather than starting one).
pub open spec fn lines_of(s: Seq<char>) -> Seq<Seq<char>> {
    let p = pieces(s);
    if p.last().len() == 0 {
        p.drop_last()
    } else {
        p
    }
}

/// The lines among `lines` that parse as URLs, in order.
pub open spec fn url_lines_of(lines: Seq<Seq<char>>) -> Seq<Seq<char>>
    decreases lines.len(),
{
    if lines.len() == 0 {
        seq![]
    } else {
        let front = url_lines_of(lines.drop_last());
        if url_parses(lines.last()) {
            front.push(lines.last())
        } else {
            front
        }
    }
}

/// The lines of `s`, split at each newline; a final newline ends the last
/// line.
pub fn split_lines(s: &str) -> (r: Vec<String>)
    ensures
        r.deep_view() == lines_of(s@),
{
    let cs = chars_of(s);
    let mut done: Vec<String> = Vec::new();
    let mut cur = String::new();
    let mut i: usize = 0;
    assert(cs@.take(0) == Seq::<char>::empty());
    assert(done.deep_view().push(cur@) == pieces(cs@.take(0)));
    while i < cs.len()
        invariant
            cs@ == s@,
            i <= cs.len(),
            done.deep_view().push(cur@) == pieces(cs@.take(i as int)),
        decreases cs.len() - i,
    {
        let ghost before = done.deep_view();
        let ghost prefix = cs@.take(i + 1);
        assert(prefix.drop_last() == cs@.take(i as int));
        assert(prefix.last() == cs@[i as int]);
        let c = cs[i];
        if c == '\n' {
            let line = cur;
            done.push(line);
            cur = String::new();
            assert(done.deep_view() == before.push(line@));
        } else {
            push_char(&mut cur, c);
            let ghost p = pieces(cs@.take(i as int));
            assert(done.deep_view().push(cur@) == p.update(p.len() - 1, p.last().push(c)));
        }
        i = i + 1;
    }
    assert(cs@.take(cs.len() as int) == s@);
    if cur.as_str().is_empty() {
        assert(done.deep_view().push(cur@).drop_last() == done.deep_view());
        done
    } else {
        done.push(cur);
        done
    }
}

/// The lines of `domains` that parse as URLs, in order.
pub fn url_lines(domains: &str) -> (r: Vec<String>)
    ensures
        r.deep_view() == url_lines_of(lines_of(domains@)),
{
    let lines = split_lines(domains);
    let ghost all = lines.deep_view();
    let mut kept: Vec<String> = Vec::new();
    let mut i: usize = 0;
    assert(all.take(0) == Seq::<Seq<char>>::empty());
    while i < lines.len()
        invariant
            all == lines.deep_view(),
            all == lines_of(domains@),
            i <= lines.len(),
            kept.deep_view() == url_lines_of(all.take(i as int)),
        decreases lines.len() - i,
    {
        let ghost prefix = all.take(i + 1);
        assert(prefix.drop_last() == all.take(i as int));
        assert(prefix.last() == lines@[i as int]@);
        if parse_url(lines[i].as_str()).is_some() {
            let ghost before = kept.deep_view();
            kept.push(lines[i].clone());
            assert(kept.deep_view() == before.push(lines@[i as int]@));
        }
        i = i + 1;
    }
    assert(all.take(lines.len() as int) == all);
    kept
}

/// The URLs among the lines of `domains`, in order: one for each line that
/// `url_lines` keeps, parsed from that line. Lines that are not URLs are
/// skipped.
pub fn strings_to_urls(domains: String) -> (r: Vec<url::Url>)
    ensures
        r.len() == url_lines_of(lines_of(domains@)).len(),
{
    let lines = url_lines(domains.as_str());
    let ghost kept = lines.deep_view();
    let mut urls: Vec<url::Url> = Vec::new();
    let mut i: usize = 0;
    while i < lines.len()
        invariant
            kept == lines.deep_view(),
            kept == url_lines_of(lines_of(domains@)),
            i <= lines.len(),
            urls.len() == i,
        decreases lines.len() - i,
    {
        proof {
            lemma_url_lines_parse(lines_of(domains@), i as int);
        }
        match parse_url(lines[i].as_str()) {
            Some(url) => {
                urls.push(url);
            },
            None => {},
        }
        i = i + 1;
    }
    urls
}

/// Every line that `url_lines_of` keeps parses.
proof fn lemma_url_lines_parse(lines: Seq<Seq<char>>, k: int)
    requires
        0 <= k < url_lines_of(lines).len(),
    ensures
        url_parses(url_lines_of(lines)[k]),
    decreases lines.len(),
{
    let front = url_lines_of(lines.drop_last());
    if k < front.len() {
        lemma_url_lines_parse(lines.drop_last(), k);
    }
}

} // verus!
