//! The signature catalog, the page signals, the rule matcher and the
//! evaluation of a whole catalog against one page.

use crate::pattern::{check_text, chars_of, pattern_part, regex_compiles, text_matches};
use std::collections::HashMap;
use std::sync::Arc;
use vstd::prelude::*;

verus! {

/// Name/value entries, as character sequences, in order.
pub type Pairs = Seq<(Seq<char>, Seq<char>)>;

/// A very simple representation for cookie data
pub struct Cookie {
    pub name: String,
    pub value: String,
}

/// The signals of one fetched page that matching reads.
pub struct RawData {
    /// Response headers, name to value; names compare without regard to
    /// ASCII case.
    pub headers: Vec<(String, String)>,
    pub cookies: Vec<Cookie>,
    /// Meta tags, name to content.
    pub meta_tags: Vec<(String, String)>,
    /// Raw markup of each script tag.
    pub script_tags: Vec<String>,
    pub html: String,
}

/// What matching sees of a page.
pub struct PageView {
    pub headers: Pairs,
    pub cookies: Pairs,
    pub meta_tags: Pairs,
    pub script_tags: Seq<Seq<char>>,
    pub html: Seq<char>,
}

impl View for RawData {
    type V = PageView;

    open spec fn view(&self) -> PageView {
        PageView {
            headers: self.headers.deep_view(),
            cookies: self.cookies@.map_values(|c: Cookie| (c.name@, c.value@)),
            meta_tags: self.meta_tags.deep_view(),
            script_tags: self.script_tags.deep_view(),
            html: self.html@,
        }
    }
}

/// Replacing the value of entry `k` by one under the same name changes no
/// other name's lookup.
proof fn lemma_update_other(e: Pairs, k: int, x: (Seq<char>, Seq<char>), n: Seq<char>, i: int)
    requires
        0 <= k < e.len(),
        0 <= i,
        x.0 == e[k].0,
        n != x.0,
    ensures
        first_value(e.update(k, x), n, i) == first_value(e, n, i),
    decreases e.len() - i,
{
    if i < e.len() {
        lemma_update_other(e, k, x, n, i + 1);
    }
}

/// Replacing the first entry under `x.0` makes the lookup of `x.0` give the
/// new value.
proof fn lemma_update_found(e: Pairs, k: int, x: (Seq<char>, Seq<char>), i: int)
    requires
        0 <= i <= k < e.len(),
        x.0 == e[k].0,
        forall|m: int| i <= m < k ==> e[m].0 != x.0,
    ensures
        first_value(e.update(k, x), x.0, i) == Some(x.1),
    decreases k - i,
{
    if i < k {
        lemma_update_found(e, k, x, i + 1);
    }
}

/// Appending an entry changes only the lookups that found nothing.
proof fn lemma_push_entry(e: Pairs, x: (Seq<char>, Seq<char>), n: Seq<char>, i: int)
    requires
        0 <= i <= e.len(),
    ensures
        first_value(e.push(x), n, i) == match first_value(e, n, i) {
            Some(v) => Some(v),
            None => if x.0 == n {
                Some(x.1)
            } else {
                None
            },
        },
    decreases e.len() - i,
{
    if i < e.len() {
        assert(e.push(x)[i] == e[i]);
        lemma_push_entry(e, x, n, i + 1);
    } else {
        assert(e.push(x)[i] == x);
        assert(first_value(e, n, i) is None);
        assert(first_value(e.push(x), n, i + 1) is None);
    }
}

impl RawData {
    /// Meta tag names are distinct, as a later tag replaces an earlier one.
    pub open spec fn wf(&self) -> bool {
        keys_distinct(self@.meta_tags)
    }

    /// Records meta tag `name` with `content`. A later tag of a name replaces
    /// an earlier one, so the names stay distinct.
    pub fn add_meta(&mut self, name: String, content: String)
        ensures
            first_value(final(self)@.meta_tags, name@, 0) == Some(content@),
            forall|n: Seq<char>|
                n != name@ ==> first_value(final(self)@.meta_tags, n, 0) == first_value(
                    old(self)@.meta_tags,
                    n,
                    0,
                ),
            old(self).wf() ==> final(self).wf(),
            final(self)@.headers == old(self)@.headers,
            final(self)@.cookies == old(self)@.cookies,
            final(self)@.script_tags == old(self)@.script_tags,
            final(self)@.html == old(self)@.html,
    {
        let ghost e = old(self)@.meta_tags;
        let ghost x = (name@, content@);
        match find_entry(&self.meta_tags, &name) {
            Some(k) => {
                proof {
                    assert(e[k as int] == (self.meta_tags@[k as int].0@, self.meta_tags@[k as int].1@));
                    assert forall|m: int| 0 <= m < k implies e[m].0 != x.0 by {
                        assert(e[m] == (self.meta_tags@[m].0@, self.meta_tags@[m].1@));
                    }
                    lemma_update_found(e, k as int, x, 0);
                    assert forall|n: Seq<char>| n != name@ implies first_value(e.update(k as int, x), n, 0)
                        == first_value(e, n, 0) by {
                        lemma_update_other(e, k as int, x, n, 0);
                    }
                }
                self.meta_tags.set(k, (name, content));
                assert(self@.meta_tags == e.update(k as int, x));
            },
            None => {
                proof {
                    assert forall|m: int| 0 <= m < e.len() implies e[m].0 != x.0 by {
                        assert(e[m] == (self.meta_tags@[m].0@, self.meta_tags@[m].1@));
                    }
                    assert forall|n: Seq<char>| #[trigger] first_value(e.push(x), n, 0) == match first_value(e, n, 0) {
                        Some(v) => Some(v),
                        None => if x.0 == n { Some(x.1) } else { None },
                    } by {
                        lemma_push_entry(e, x, n, 0);
                    }
                }
                self.meta_tags.push((name, content));
                assert(self@.meta_tags == e.push(x));
            },
        }
    }
}

/// Two characters are equal, or the same ASCII letter in different case.
pub open spec fn same_letter(a: char, b: char) -> bool {
    ||| a == b
    ||| 'A' <= a <= 'Z' && b as u32 == a as u32 + 32
    ||| 'A' <= b <= 'Z' && a as u32 == b as u32 + 32
}

/// Two header names are equal without regard to ASCII case.
pub open spec fn same_header_name(a: Seq<char>, b: Seq<char>) -> bool {
    a.len() == b.len() && forall|i: int| 0 <= i < a.len() ==> same_letter(a[i], b[i])
}

/// The value of the first entry at or after `i` whose name is `name`.
pub open spec fn first_value(entries: Pairs, name: Seq<char>, i: int) -> Option<Seq<char>>
    decreases entries.len() - i,
{
    if i < 0 || i >= entries.len() {
        None
    } else if entries[i].0 == name {
        Some(entries[i].1)
    } else {
        first_value(entries, name, i + 1)
    }
}

/// The value of the first header at or after `i` named `name`, in any
/// ASCII case.
pub open spec fn first_header(entries: Pairs, name: Seq<char>, i: int) -> Option<Seq<char>>
    decreases entries.len() - i,
{
    if i < 0 || i >= entries.len() {
        None
    } else if same_header_name(entries[i].0, name) {
        Some(entries[i].1)
    } else {
        first_header(entries, name, i + 1)
    }
}

/// Whether `a` and `b` are the same header name, in any ASCII case.
pub fn header_names_agree(a: &str, b: &str) -> (r: bool)
    ensures
        r == same_header_name(a@, b@),
{
    let x = chars_of(a);
    let y = chars_of(b);
    if x.len() != y.len() {
        return false;
    }
    let mut i: usize = 0;
    while i < x.len()
        invariant
            x@ == a@,
            y@ == b@,
            x.len() == y.len(),
            i <= x.len(),
            forall|k: int| 0 <= k < i ==> same_letter(x@[k], y@[k]),
        decreases x.len() - i,
    {
        let c = x[i];
        let d = y[i];
        let cu = c as u32;
        let du = d as u32;
        let agree = c == d || ('A' <= c && c <= 'Z' && du == cu + 32) || ('A' <= d && d <= 'Z'
            && cu == du + 32);
        if !agree {
            assert(!same_letter(a@[i as int], b@[i as int]));
            return false;
        }
        i = i + 1;
    }
    true
}

/// The index of the first header named `name`, in any ASCII case.
fn find_header(headers: &Vec<(String, String)>, name: &str) -> (r: Option<usize>)
    ensures
        first_header(headers.deep_view(), name@, 0) == match r {
            Some(k) => Some(headers@[k as int].1@),
            None => None::<Seq<char>>,
        },
        r matches Some(k) ==> k < headers.len(),
{
    let ghost entries = headers.deep_view();
    let mut j: usize = 0;
    while j < headers.len()
        invariant
            entries == headers.deep_view(),
            j <= headers.len(),
            first_header(entries, name@, 0) == first_header(entries, name@, j as int),
        decreases headers.len() - j,
    {
        if header_names_agree(headers[j].0.as_str(), name) {
            return Some(j);
        }
        j = j + 1;
    }
    None
}

/// The index of the first entry named exactly `name`.
fn find_entry(entries: &Vec<(String, String)>, name: &String) -> (r: Option<usize>)
    ensures
        first_value(entries.deep_view(), name@, 0) == match r {
            Some(k) => Some(entries@[k as int].1@),
            None => None::<Seq<char>>,
        },
        r matches Some(k) ==> k < entries.len() && entries@[k as int].0@ == name@,
        forall|m: int|
            0 <= m < entries.len() && (r matches Some(k) ==> m < k) ==> entries@[m].0@ != name@,
{
    let ghost view = entries.deep_view();
    let mut j: usize = 0;
    while j < entries.len()
        invariant
            view == entries.deep_view(),
            j <= entries.len(),
            first_value(view, name@, 0) == first_value(view, name@, j as int),
            forall|m: int| 0 <= m < j ==> entries@[m].0@ != name@,
        decreases entries.len() - j,
    {
        assert(view[j as int] == (entries@[j as int].0@, entries@[j as int].1@));
        if entries[j].0 == *name {
            return Some(j);
        }
        j = j + 1;
    }
    None
}

/// The index of the first cookie named exactly `name`.
fn find_cookie(cookies: &Vec<Cookie>, name: &String) -> (r: Option<usize>)
    ensures
        first_value(cookies@.map_values(|c: Cookie| (c.name@, c.value@)), name@, 0) == match r {
            Some(k) => Some(cookies@[k as int].value@),
            None => None::<Seq<char>>,
        },
        r matches Some(k) ==> k < cookies.len(),
{
    let ghost view = cookies@.map_values(|c: Cookie| (c.name@, c.value@));
    let mut j: usize = 0;
    while j < cookies.len()
        invariant
            view == cookies@.map_values(|c: Cookie| (c.name@, c.value@)),
            j <= cookies.len(),
            first_value(view, name@, 0) == first_value(view, name@, j as int),
        decreases cookies.len() - j,
    {
        if cookies[j].name == *name {
            return Some(j);
        }
        j = j + 1;
    }
    None
}

/// A technology signature: its category ids and the rules that detect it.
pub struct App {
    pub name: String,
    pub cats: Vec<u32>,
    pub website: String,
    pub priority: i32,
    /// Patterns searched for in the page's html.
    pub html: Vec<String>,
    /// Header name to pattern for that header's value.
    pub headers: Vec<(String, String)>,
    /// Cookie name to pattern for its value; an empty pattern asks only
    /// that the cookie be there.
    pub cookies: Vec<(String, String)>,
    /// Patterns searched for in the script tags, each with a rule value that
    /// matching does not read.
    pub js: Vec<(String, String)>,
    pub url: String,
    /// Meta tag name to pattern for its content.
    pub meta: Vec<(String, String)>,
    pub icon: String,
    pub implies: Vec<String>,
    pub excludes: Vec<String>,
    pub script: Vec<String>,
}

/// What matching sees of a signature.
pub struct AppView {
    pub name: Seq<char>,
    pub cats: Seq<u32>,
    pub headers: Pairs,
    pub html: Seq<Seq<char>>,
    pub cookies: Pairs,
    pub js: Pairs,
    pub meta: Pairs,
}

impl View for App {
    type V = AppView;

    open spec fn view(&self) -> AppView {
        AppView {
            name: self.name@,
            cats: self.cats@,
            headers: self.headers.deep_view(),
            html: self.html.deep_view(),
            cookies: self.cookies.deep_view(),
            js: self.js.deep_view(),
            meta: self.meta.deep_view(),
        }
    }
}

/// A header rule hits when the page has the header and its value matches.
pub open spec fn header_rule_hits(rule: (Seq<char>, Seq<char>), page: PageView) -> bool {
    match first_header(page.headers, rule.0, 0) {
        Some(v) => text_matches(rule.1, v),
        None => false,
    }
}

/// A cookie rule hits when the page has a cookie of that name and the first
/// such cookie's value matches, or the rule's pattern is empty.
pub open spec fn cookie_rule_hits(rule: (Seq<char>, Seq<char>), page: PageView) -> bool {
    match first_value(page.cookies, rule.0, 0) {
        Some(v) => rule.1.len() == 0 || text_matches(rule.1, v),
        None => false,
    }
}

/// A script rule hits when its pattern matches some script tag.
pub open spec fn script_rule_hits(token: Seq<char>, page: PageView) -> bool {
    exists|j: int| 0 <= j < page.script_tags.len() && text_matches(token, page.script_tags[j])
}

/// A meta rule hits when the page has the meta tag and its content matches.
pub open spec fn meta_rule_hits(rule: (Seq<char>, Seq<char>), page: PageView) -> bool {
    match first_value(page.meta_tags, rule.0, 0) {
        Some(v) => text_matches(rule.1, v),
        None => false,
    }
}

pub open spec fn headers_hit(app: AppView, page: PageView) -> bool {
    exists|i: int| 0 <= i < app.headers.len() && header_rule_hits(app.headers[i], page)
}

pub open spec fn html_hits(app: AppView, page: PageView) -> bool {
    exists|i: int| 0 <= i < app.html.len() && text_matches(app.html[i], page.html)
}

pub open spec fn cookies_hit(app: AppView, page: PageView) -> bool {
    exists|i: int| 0 <= i < app.cookies.len() && cookie_rule_hits(app.cookies[i], page)
}

pub open spec fn scripts_hit(app: AppView, page: PageView) -> bool {
    exists|i: int| 0 <= i < app.js.len() && script_rule_hits(app.js[i].0, page)
}

pub open spec fn meta_hits(app: AppView, page: PageView) -> bool {
    exists|i: int| 0 <= i < app.meta.len() && meta_rule_hits(app.meta[i], page)
}

/// A signature matches a page when any one of its rules hits.
pub open spec fn signature_matches(app: AppView, page: PageView) -> bool {
    ||| headers_hit(app, page)
    ||| html_hits(app, page)
    ||| cookies_hit(app, page)
    ||| scripts_hit(app, page)
    ||| meta_hits(app, page)
}

impl App {
    fn headers_hit(&self, raw_data: &RawData) -> (r: bool)
        ensures
            r == headers_hit(self@, raw_data@),
    {
        let mut i: usize = 0;
        while i < self.headers.len()
            invariant
                i <= self.headers.len(),
                forall|k: int| 0 <= k < i ==> !header_rule_hits(self@.headers[k], raw_data@),
            decreases self.headers.len() - i,
        {
            let rule = &self.headers[i];
            match find_header(&raw_data.headers, rule.0.as_str()) {
                Some(k) => {
                    if check_text(rule.1.as_str(), raw_data.headers[k].1.as_str()) {
                        assert(header_rule_hits(self@.headers[i as int], raw_data@));
                        return true;
                    }
                },
                None => {},
            }
            i = i + 1;
        }
        false
    }

    fn html_hits(&self, raw_data: &RawData) -> (r: bool)
        ensures
            r == html_hits(self@, raw_data@),
    {
        let mut i: usize = 0;
        while i < self.html.len()
            invariant
                i <= self.html.len(),
                forall|k: int| 0 <= k < i ==> !text_matches(self@.html[k], raw_data@.html),
            decreases self.html.len() - i,
        {
            if check_text(self.html[i].as_str(), raw_data.html.as_str()) {
                assert(text_matches(self@.html[i as int], raw_data@.html));
                return true;
            }
            i = i + 1;
        }
        false
    }

    fn cookies_hit(&self, raw_data: &RawData) -> (r: bool)
        ensures
            r == cookies_hit(self@, raw_data@),
    {
        let mut i: usize = 0;
        while i < self.cookies.len()
            invariant
                i <= self.cookies.len(),
                forall|k: int| 0 <= k < i ==> !cookie_rule_hits(self@.cookies[k], raw_data@),
            decreases self.cookies.len() - i,
        {
            let rule = &self.cookies[i];
            match find_cookie(&raw_data.cookies, &rule.0) {
                Some(k) => {
                    if rule.1.as_str().is_empty() || check_text(
                        rule.1.as_str(),
                        raw_data.cookies[k].value.as_str(),
                    ) {
                        assert(cookie_rule_hits(self@.cookies[i as int], raw_data@));
                        return true;
                    }
                },
                None => {},
            }
            i = i + 1;
        }
        false
    }

    fn scripts_hit(&self, raw_data: &RawData) -> (r: bool)
        ensures
            r == scripts_hit(self@, raw_data@),
    {
        let tags = &raw_data.script_tags;
        let mut i: usize = 0;
        while i < self.js.len()
            invariant
                i <= self.js.len(),
                tags == &raw_data.script_tags,
                forall|k: int| 0 <= k < i ==> !script_rule_hits(self@.js[k].0, raw_data@),
            decreases self.js.len() - i,
        {
            let token = self.js[i].0.as_str();
            let mut j: usize = 0;
            while j < tags.len()
                invariant
                    j <= tags.len(),
                    i < self.js.len(),
                    tags == &raw_data.script_tags,
                    token@ == self@.js[i as int].0,
                    forall|m: int|
                        0 <= m < j ==> !text_matches(token@, raw_data@.script_tags[m]),
                decreases tags.len() - j,
            {
                assert(raw_data@.script_tags[j as int] == tags@[j as int]@);
                if check_text(token, tags[j].as_str()) {
                    assert(script_rule_hits(self@.js[i as int].0, raw_data@));
                    return true;
                }
                j = j + 1;
            }
            i = i + 1;
        }
        false
    }

    fn meta_hits(&self, raw_data: &RawData) -> (r: bool)
        ensures
            r == meta_hits(self@, raw_data@),
    {
        let mut i: usize = 0;
        while i < self.meta.len()
            invariant
                i <= self.meta.len(),
                forall|k: int| 0 <= k < i ==> !meta_rule_hits(self@.meta[k], raw_data@),
            decreases self.meta.len() - i,
        {
            let rule = &self.meta[i];
            match find_entry(&raw_data.meta_tags, &rule.0) {
                Some(k) => {
                    if check_text(rule.1.as_str(), raw_data.meta_tags[k].1.as_str()) {
                        assert(meta_rule_hits(self@.meta[i as int], raw_data@));
                        return true;
                    }
                },
                None => {},
            }
            i = i + 1;
        }
        false
    }

    /// Whether this signature matches the page: its header rules, html
    /// patterns, cookie rules, script patterns and meta rules are tried in
    /// that order, and the first hit decides.
    pub fn check(&self, raw_data: Arc<RawData>) -> (r: bool)
        ensures
            r == signature_matches(self@, raw_data@),
    {
        self.matches_page(&*raw_data)
    }

    fn matches_page(&self, page: &RawData) -> (r: bool)
        ensures
            r == signature_matches(self@, page@),
    {
        self.headers_hit(page) || self.html_hits(page) || self.cookies_hit(page)
            || self.scripts_hit(page) || self.meta_hits(page)
    }

    /// The name of this signature's first category.
    pub fn category_name(&self, data: &AppsJsonData) -> (r: String)
        requires
            category_known(self@, data.category_names()),
        ensures
            r@ == data.category_names()[self@.cats[0]],
    {
        data.category_name(self.cats[0]).unwrap()
    }
}

/// A named group of signatures.
pub struct Category {
    pub name: String,
    pub priority: u8,
}

/// A technology that is found on a page
#[derive(Debug, Clone)]
pub struct Tech {
    pub category: String,
    pub name: String,
}

impl View for Tech {
    type V = (Seq<char>, Seq<char>);

    /// The technology's name, then its category's name.
    open spec fn view(&self) -> (Seq<char>, Seq<char>) {
        (self.name@, self.category@)
    }
}

impl PartialEq for Tech {
    fn eq(&self, other: &Tech) -> (r: bool)
        ensures
            r == (self@ == other@),
    {
        self.name == other.name && self.category == other.category
    }
}

impl vstd::std_specs::cmp::PartialEqSpecImpl for Tech {
    open spec fn obeys_eq_spec() -> bool {
        true
    }

    open spec fn eq_spec(&self, other: &Tech) -> bool {
        self@ == other@
    }
}

/// The catalog: every signature, under its name, and every category, under
/// its id.
pub struct AppsJsonData {
    pub apps: Vec<App>,
    pub categories: HashMap<u32, Category>,
}

/// No two entries share a name.
pub open spec fn keys_distinct(entries: Pairs) -> bool {
    forall|i: int, j: int| 0 <= i < j < entries.len() ==> entries[i].0 != entries[j].0
}

/// Each of a signature's rule maps has at most one rule per name.
pub open spec fn rules_distinct(app: AppView) -> bool {
    &&& keys_distinct(app.headers)
    &&& keys_distinct(app.cookies)
    &&& keys_distinct(app.js)
    &&& keys_distinct(app.meta)
}

/// No two signatures share a name.
pub open spec fn names_distinct(apps: Seq<AppView>) -> bool {
    forall|i: int, j: int| 0 <= i < j < apps.len() ==> apps[i].name != apps[j].name
}

/// Whether a signature's first category id is one of the catalog's.
pub open spec fn category_known(app: AppView, names: Map<u32, Seq<char>>) -> bool {
    app.cats.len() > 0 && names.contains_key(app.cats[0])
}

/// The result record for a signature: its name and its first category's
/// name.
pub open spec fn tech_of(app: AppView, names: Map<u32, Seq<char>>) -> (Seq<char>, Seq<char>) {
    (app.name, names[app.cats[0]])
}

/// Whether a signature yields a record for the page: it matches, and its
/// first category resolves. A signature whose category does not resolve
/// counts as no match.
pub open spec fn found(app: AppView, page: PageView, names: Map<u32, Seq<char>>) -> bool {
    signature_matches(app, page) && category_known(app, names)
}

/// The technologies that a page shows, one for each signature that is
/// found on it, in the signatures' order.
pub open spec fn detected(apps: Seq<AppView>, page: PageView, names: Map<u32, Seq<char>>) -> Seq<
    (Seq<char>, Seq<char>),
>
    decreases apps.len(),
{
    if apps.len() == 0 {
        seq![]
    } else {
        let rest = detected(apps.drop_last(), page, names);
        if found(apps.last(), page, names) {
            rest.push(tech_of(apps.last(), names))
        } else {
            rest
        }
    }
}

/// Whether no two entries of `entries` share a name.
fn keys_unique(entries: &Vec<(String, String)>) -> (r: bool)
    ensures
        r == keys_distinct(entries.deep_view()),
{
    let ghost v = entries.deep_view();
    let n = entries.len();
    let mut i: usize = 0;
    while i < n
        invariant
            n == entries.len(),
            v == entries.deep_view(),
            i <= n,
            forall|a: int, b: int| 0 <= a < i && a < b < n ==> v[a].0 != v[b].0,
        decreases n - i,
    {
        let mut j: usize = i + 1;
        while j < n
            invariant
                n == entries.len(),
                v == entries.deep_view(),
                i < n,
                i < j <= n,
                forall|b: int| i < b < j ==> v[i as int].0 != v[b].0,
            decreases n - j,
        {
            if entries[i].0 == entries[j].0 {
                assert(v[i as int] == (entries@[i as int].0@, entries@[i as int].1@));
                assert(v[j as int] == (entries@[j as int].0@, entries@[j as int].1@));
                return false;
            }
            j = j + 1;
        }
        i = i + 1;
    }
    true
}

impl AppsJsonData {
    /// The category names, by id.
    pub open spec fn category_names(&self) -> Map<u32, Seq<char>> {
        self.categories@.map_values(|c: Category| c.name@)
    }

    /// The name of category `id`, if the catalog has it.
    pub fn category_name(&self, id: u32) -> (r: Option<String>)
        ensures
            r is Some <==> self.category_names().contains_key(id),
            r matches Some(name) ==> name@ == self.category_names()[id],
    {
        broadcast use vstd::std_specs::hash::group_hash_axioms;

        match self.categories.get(&id) {
            Some(category) => Some(category.name.clone()),
            None => None,
        }
    }

    /// What matching sees of the signatures, in order.
    pub open spec fn app_views(&self) -> Seq<AppView> {
        self.apps@.map_values(|a: App| a@)
    }

    /// Signature names are unique keys, and so are the names in each of a
    /// signature's rule maps.
    pub open spec fn wf(&self) -> bool {
        &&& names_distinct(self.app_views())
        &&& forall|i: int| 0 <= i < self.apps.len() ==> rules_distinct(#[trigger] self.apps@[i]@)
    }

    /// Builds the catalog, naming each signature by the key it was listed
    /// under. `None` when two signatures are listed under one key, or a
    /// signature names one header, cookie, script or meta rule twice.
    pub fn new(apps: Vec<(String, App)>, categories: HashMap<u32, Category>) -> (r: Option<
        AppsJsonData,
    >)
        ensures
            r is Some <==> {
                &&& forall|i: int, j: int| 0 <= i < j < apps.len() ==> apps@[i].0@ != apps@[j].0@
                &&& forall|i: int| 0 <= i < apps.len() ==> rules_distinct(#[trigger] apps@[i].1@)
            },
            r matches Some(d) ==> {
                &&& d.wf()
                &&& d.categories@ == categories@
                &&& d.apps.len() == apps.len()
                &&& forall|i: int|
                    0 <= i < apps.len() ==> (#[trigger] d.apps@[i])@ == renamed(
                        apps@[i].1@,
                        apps@[i].0@,
                    )
            },
    {
        let ghost given = apps@;
        let n = apps.len();
        let mut i: usize = 0;
        while i < n
            invariant
                n == apps.len(),
                given == apps@,
                i <= n,
                forall|a: int, b: int| 0 <= a < i && a < b < n ==> given[a].0@ != given[b].0@,
                forall|a: int| 0 <= a < i ==> rules_distinct(#[trigger] given[a].1@),
            decreases n - i,
        {
            let mut j: usize = i + 1;
            while j < n
                invariant
                    n == apps.len(),
                    given == apps@,
                    i < n,
                    i < j <= n,
                    forall|b: int| i < b < j ==> given[i as int].0@ != given[b].0@,
                decreases n - j,
            {
                if apps[i].0 == apps[j].0 {
                    assert(given[i as int].0@ == given[j as int].0@);
                    return None;
                }
                j = j + 1;
            }
            let app = &apps[i].1;
            if !(keys_unique(&app.headers) && keys_unique(&app.cookies) && keys_unique(&app.js)
                && keys_unique(&app.meta)) {
                assert(!rules_distinct(given[i as int].1@));
                return None;
            }
            i = i + 1;
        }
        let mut named: Vec<App> = Vec::new();
        let mut rest = apps;
        while rest.len() > 0
            invariant
                given.len() == n,
                named.len() + rest.len() == n,
                rest@ == given.subrange(0, rest.len() as int),
                forall|k: int|
                    0 <= k < named.len() ==> (#[trigger] named@[k])@ == renamed(
                        given[rest.len() + k].1@,
                        given[rest.len() + k].0@,
                    ),
            decreases rest.len(),
        {
            let ghost before = named@;
            let (name, mut app) = rest.pop().unwrap();
            app.name = name;
            named.insert(0, app);
            assert forall|k: int|
                0 <= k < named.len() implies (#[trigger] named@[k])@ == renamed(
                    given[rest.len() + k].1@,
                    given[rest.len() + k].0@,
                ) by {
                if k > 0 {
                    assert(named@[k] == before[k - 1]);
                }
            }
        }
        let data = AppsJsonData { apps: named, categories };
        let ghost views = data.app_views();
        assert forall|a: int, b: int| 0 <= a < b < views.len() implies views[a].name
            != views[b].name by {
            assert(views[a] == data.apps@[a]@);
            assert(views[b] == data.apps@[b]@);
        }
        assert forall|k: int| 0 <= k < data.apps.len() implies rules_distinct(
            #[trigger] data.apps@[k]@,
        ) by {
            assert(rules_distinct(given[k].1@));
        }
        Some(data)
    }
}

impl Tech {
    /// The record for a signature that matched: its name and its first
    /// category's name.
    pub fn from(app: &App, data: &AppsJsonData) -> (r: Tech)
        requires
            category_known(app@, data.category_names()),
        ensures
            r@ == tech_of(app@, data.category_names()),
    {
        Tech { name: app.name.clone(), category: app.category_name(data) }
    }
}

impl App {
    fn tech_on(&self, page: &RawData, data: &AppsJsonData) -> (r: Option<Tech>)
        ensures
            r is Some <==> found(self@, page@, data.category_names()),
            r matches Some(t) ==> t@ == tech_of(self@, data.category_names()),
    {
        if !self.matches_page(page) || self.cats.len() == 0 {
            return None;
        }
        match data.category_name(self.cats[0]) {
            Some(category) => Some(Tech { name: self.name.clone(), category }),
            None => None,
        }
    }

    /// The record for this signature on the page: `None` when it does not
    /// match, or when its first category does not resolve in `data`.
    pub fn tech(&self, raw_data: Arc<RawData>, data: &AppsJsonData) -> (r: Option<Tech>)
        ensures
            r is Some <==> found(self@, raw_data@, data.category_names()),
            r matches Some(t) ==> t@ == tech_of(self@, data.category_names()),
    {
        self.tech_on(&*raw_data, data)
    }
}

/// The technologies that the catalog's signatures find on the page, one for
/// each signature that matches and whose first category resolves, in the
/// catalog's order. In a well-formed catalog no two carry the same name.
pub fn check(raw_data: Arc<RawData>, data: &AppsJsonData) -> (r: Vec<Tech>)
    ensures
        r@.map_values(|t: Tech| t@) == detected(
            data.app_views(),
            raw_data@,
            data.category_names(),
        ),
        r.len() <= data.apps.len(),
        data.wf() ==> forall|i: int, j: int| 0 <= i < j < r.len() ==> r@[i].name@ != r@[j].name@,
{
    let page: &RawData = &*raw_data;
    let ghost views = data.app_views();
    let ghost names = data.category_names();
    let mut found: Vec<Tech> = Vec::new();
    let mut i: usize = 0;
    assert(views.take(0) == Seq::<AppView>::empty());
    while i < data.apps.len()
        invariant
            views == data.app_views(),
            names == data.category_names(),
            i <= data.apps.len(),
            found@.map_values(|t: Tech| t@) == detected(views.take(i as int), page@, names),
        decreases data.apps.len() - i,
    {
        let app = &data.apps[i];
        let ghost prefix = views.take(i + 1);
        assert(prefix.drop_last() == views.take(i as int));
        assert(prefix.last() == app@);
        match app.tech_on(page, data) {
            Some(tech) => {
                let ghost old_found = found@;
                found.push(tech);
                assert(found@.map_values(|t: Tech| t@) == old_found.map_values(|t: Tech| t@).push(
                    tech@,
                ));
            },
            None => {},
        }
        i = i + 1;
    }
    assert(views.take(data.apps.len() as int) == views);
    proof {
        law_detected_names_distinct(views, page@, names);
        let tv = found@.map_values(|t: Tech| t@);
        assert(tv.len() == found.len());
        if data.wf() {
            assert forall|a: int, b: int| 0 <= a < b < found.len() implies found@[a].name@
                != found@[b].name@ by {
                assert(tv[a] == found@[a]@);
                assert(tv[b] == found@[b]@);
            }
        }
    }
    found
}

/// A signature's view under another name.
pub open spec fn renamed(app: AppView, name: Seq<char>) -> AppView {
    AppView { name, ..app }
}

/// Some entry at or after `i` is named `name`, so a value is found.
proof fn lemma_first_value_found(entries: Pairs, name: Seq<char>, i: int, j: int)
    requires
        0 <= i <= j < entries.len(),
        entries[j].0 == name,
    ensures
        first_value(entries, name, i) is Some,
    decreases j - i,
{
    if entries[i].0 != name {
        lemma_first_value_found(entries, name, i + 1, j);
    }
}

/// A signature's view with `p` added to its html patterns at `k`.
pub open spec fn with_html_pattern(app: AppView, k: int, p: Seq<char>) -> AppView {
    AppView { html: app.html.insert(k, p), ..app }
}

/// Adding an html pattern that does not compile to a signature changes
/// nothing: the signature matches exactly the pages it matched before, so
/// its other rules still decide.
pub proof fn law_invalid_pattern_harmless(app: AppView, page: PageView, k: int, p: Seq<char>)
    requires
        0 <= k <= app.html.len(),
        !regex_compiles(pattern_part(p)),
    ensures
        signature_matches(with_html_pattern(app, k, p), page) == signature_matches(app, page),
{
    let bigger = with_html_pattern(app, k, p);
    let h = bigger.html;
    if html_hits(app, page) {
        let i = choose|i: int| 0 <= i < app.html.len() && text_matches(app.html[i], page.html);
        if i < k {
            assert(h[i] == app.html[i]);
        } else {
            assert(h[i + 1] == app.html[i]);
        }
    }
    if html_hits(bigger, page) {
        let i = choose|i: int| 0 <= i < h.len() && text_matches(h[i], page.html);
        assert(i != k);
        if i < k {
            assert(h[i] == app.html[i]);
        } else {
            assert(h[i] == app.html[i - 1]);
        }
    }
}

/// A cookie rule with an empty pattern makes its signature match any page
/// that has a cookie of that name, whatever the cookie's value.
pub proof fn law_empty_cookie_rule_tests_presence(app: AppView, page: PageView, i: int, j: int)
    requires
        0 <= i < app.cookies.len(),
        app.cookies[i].1.len() == 0,
        0 <= j < page.cookies.len(),
        page.cookies[j].0 == app.cookies[i].0,
    ensures
        signature_matches(app, page),
{
    lemma_first_value_found(page.cookies, app.cookies[i].0, 0, j);
    assert(cookie_rule_hits(app.cookies[i], page));
}

/// Whether a signature matches depends on nothing but the signature and the
/// page: evaluating equal signatures against equal pages gives equal
/// results.
pub proof fn law_evaluation_repeatable(a: &App, b: &App, p: &RawData, q: &RawData)
    requires
        a@ == b@,
        p@ == q@,
    ensures
        signature_matches(a@, p@) == signature_matches(b@, q@),
{
}

/// The technologies found on a page, as a set, are one record for each
/// signature found on it; the order of evaluation plays no part.
pub proof fn law_detected_set(apps: Seq<AppView>, page: PageView, names: Map<u32, Seq<char>>)
    ensures
        forall|t: (Seq<char>, Seq<char>)|
            #![trigger detected(apps, page, names).contains(t)]
            detected(apps, page, names).contains(t) <==> exists|i: int|
                0 <= i < apps.len() && found(apps[i], page, names) && t == tech_of(
                    #[trigger] apps[i],
                    names,
                ),
    decreases apps.len(),
{
    if apps.len() > 0 {
        let front = apps.drop_last();
        law_detected_set(front, page, names);
        let rest = detected(front, page, names);
        assert forall|t: (Seq<char>, Seq<char>)|
            detected(apps, page, names).contains(t) <==> exists|i: int|
                0 <= i < apps.len() && found(apps[i], page, names) && t == tech_of(
                    #[trigger] apps[i],
                    names,
                ) by {
            if detected(apps, page, names).contains(t) {
                if rest.contains(t) {
                    let i = choose|i: int|
                        0 <= i < front.len() && found(front[i], page, names) && t == tech_of(
                            #[trigger] front[i],
                            names,
                        );
                    assert(apps[i] == front[i]);
                    assert(t == tech_of(apps[i], names));
                } else {
                    let last = apps.len() - 1;
                    assert(apps[last] == apps.last());
                    assert(found(apps.last(), page, names));
                    let grown = rest.push(tech_of(apps.last(), names));
                    assert(detected(apps, page, names) == grown);
                    let m = choose|m: int| 0 <= m < grown.len() && grown[m] == t;
                    if m < rest.len() {
                        assert(rest[m] == t);
                        assert(rest.contains(t));
                    }
                    assert(t == tech_of(apps[last], names));
                }
            }
            if exists|i: int|
                0 <= i < apps.len() && found(apps[i], page, names) && t == tech_of(
                    #[trigger] apps[i],
                    names,
                ) {
                let i = choose|i: int|
                    0 <= i < apps.len() && found(apps[i], page, names) && t == tech_of(
                        #[trigger] apps[i],
                        names,
                    );
                if i < apps.len() - 1 {
                    assert(front[i] == apps[i]);
                    assert(t == tech_of(front[i], names));
                    assert(rest.contains(t));
                    let idx = choose|idx: int| 0 <= idx < rest.len() && rest[idx] == t;
                    if found(apps.last(), page, names) {
                        let grown = rest.push(tech_of(apps.last(), names));
                        assert(grown[idx] == t);
                    }
                    assert(detected(apps, page, names)[idx] == t);
                } else {
                    assert(apps[i] == apps.last());
                    let grown = rest.push(tech_of(apps.last(), names));
                    assert(detected(apps, page, names) == grown);
                    assert(grown[grown.len() - 1] == t);
                }
            }
        }
    }
}

/// A result lists no more records than there are signatures, and where
/// signature names are unique, so are the names in the result.
pub proof fn law_detected_names_distinct(
    apps: Seq<AppView>,
    page: PageView,
    names: Map<u32, Seq<char>>,
)
    ensures
        detected(apps, page, names).len() <= apps.len(),
        names_distinct(apps) ==> forall|a: int, b: int|
            0 <= a < b < detected(apps, page, names).len() ==> detected(apps, page, names)[a].0
                != detected(apps, page, names)[b].0,
    decreases apps.len(),
{
    if apps.len() > 0 {
        let front = apps.drop_last();
        law_detected_names_distinct(front, page, names);
        law_detected_set(front, page, names);
        let rest = detected(front, page, names);
        if names_distinct(apps) {
            assert(names_distinct(front)) by {
                assert forall|a: int, b: int| 0 <= a < b < front.len() implies front[a].name
                    != front[b].name by {
                    assert(front[a] == apps[a] && front[b] == apps[b]);
                }
            }
            if found(apps.last(), page, names) {
                let grown = rest.push(tech_of(apps.last(), names));
                assert forall|a: int, b: int| 0 <= a < b < grown.len() implies grown[a].0
                    != grown[b].0 by {
                    if b == rest.len() {
                        assert(rest.contains(rest[a]));
                        let k = choose|k: int|
                            0 <= k < front.len() && found(front[k], page, names) && rest[a]
                                == tech_of(#[trigger] front[k], names);
                        assert(front[k] == apps[k]);
                        assert(apps[apps.len() - 1] == apps.last());
                    } else {
                        assert(grown[a] == rest[a] && grown[b] == rest[b]);
                    }
                }
            }
        }
    }
}

/// A signature whose only rule is one html pattern that does not compile
/// is never found, and leaves every other signature's outcome alone: in a
/// catalog of unique names no record carries its name, and each other
/// signature that matches and resolves its category is still reported.
pub proof fn law_invalid_signature_left_out(
    apps: Seq<AppView>,
    page: PageView,
    names: Map<u32, Seq<char>>,
    x: int,
)
    requires
        0 <= x < apps.len(),
        names_distinct(apps),
        apps[x].html.len() == 1,
        !regex_compiles(pattern_part(apps[x].html[0])),
        apps[x].headers.len() == 0,
        apps[x].cookies.len() == 0,
        apps[x].js.len() == 0,
        apps[x].meta.len() == 0,
    ensures
        !signature_matches(apps[x], page),
        forall|t: (Seq<char>, Seq<char>)|
            #![trigger detected(apps, page, names).contains(t)]
            detected(apps, page, names).contains(t) ==> t.0 != apps[x].name,
        forall|y: int|
            0 <= y < apps.len() && y != x && found(apps[y], page, names) ==> detected(
                apps,
                page,
                names,
            ).contains(#[trigger] tech_of(apps[y], names)),
{
    law_detected_set(apps, page, names);
    assert forall|t: (Seq<char>, Seq<char>)|
        #![trigger detected(apps, page, names).contains(t)]
        detected(apps, page, names).contains(t) implies t.0 != apps[x].name by {
        let i = choose|i: int|
            0 <= i < apps.len() && found(apps[i], page, names) && t == tech_of(
                #[trigger] apps[i],
                names,
            );
        if i < x {
            assert(apps[i].name != apps[x].name);
        } else if i > x {
            assert(apps[x].name != apps[i].name);
        }
    }
}

/// Two evaluations of one catalog against one page find the same set of
/// technologies.
pub proof fn law_same_set_each_run(data: &AppsJsonData, p: &RawData, q: &RawData)
    requires
        p@ == q@,
    ensures
        detected(data.app_views(), p@, data.category_names()).to_set() == detected(
            data.app_views(),
            q@,
            data.category_names(),
        ).to_set(),
{
}

} // verus!
