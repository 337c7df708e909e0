//! The redirect configuration format: a list of tables, each introduced by
//! a `[[redirect]]` header and carrying `short = "..."` and `url = "..."`
//! entries as quoted strings, with blank lines in between. A `#` outside a
//! quoted string starts a comment that runs to the end of the line, on a
//! line of its own or behind a header or an entry. Unknown keys inside a
//! table are ignored; escapes inside quoted strings are not supported. The
//! parser is total: any text outside this grammar is rejected.

use vstd::prelude::*;

use crate::rules::{RuleModel, SiteRedirect, rule_models};
use crate::text::{chars_subrange, chars_to_string, str_to_chars};

verus! {

/// Horizontal whitespace (and a stray carriage return) around tokens.
pub open spec fn is_space(c: char) -> bool {
    c == ' ' || c == '\t' || c == '\r'
}

/// The index of the first occurrence of `c` in `s`, or `s.len()` if there
/// is none.
pub open spec fn find_first(s: Seq<char>, c: char) -> int
    decreases s.len(),
{
    if s.len() == 0 {
        0
    } else if s[0] == c {
        0
    } else {
        1 + find_first(s.drop_first(), c)
    }
}

proof fn lemma_find_first(s: Seq<char>, c: char)
    ensures
        0 <= find_first(s, c) <= s.len(),
        forall|k: int| 0 <= k < find_first(s, c) ==> s[k] != c,
        find_first(s, c) < s.len() ==> s[find_first(s, c)] == c,
    decreases s.len(),
{
    if s.len() > 0 && s[0] != c {
        let rest = s.drop_first();
        lemma_find_first(rest, c);
        assert forall|k: int| 0 <= k < find_first(s, c) implies s[k] != c by {
            if k > 0 {
                assert(rest[k - 1] == s[k]);
            }
        }
        if find_first(s, c) < s.len() {
            assert(rest[find_first(rest, c)] == s[find_first(s, c)]);
        }
    }
}

proof fn lemma_find_first_is(s: Seq<char>, c: char, i: int)
    requires
        0 <= i <= s.len(),
        forall|k: int| 0 <= k < i ==> s[k] != c,
        i < s.len() ==> s[i] == c,
    ensures
        find_first(s, c) == i,
    decreases i,
{
    if s.len() > 0 && s[0] != c {
        let rest = s.drop_first();
        assert forall|k: int| 0 <= k < i - 1 implies rest[k] != c by {
            assert(rest[k] == s[k + 1]);
        }
        if i - 1 < rest.len() {
            assert(rest[i - 1] == s[i]);
        }
        lemma_find_first_is(rest, c, i - 1);
    }
}

/// `s` with leading whitespace removed.
pub open spec fn trim_front(s: Seq<char>) -> Seq<char>
    decreases s.len(),
{
    if s.len() > 0 && is_space(s[0]) {
        trim_front(s.drop_first())
    } else {
        s
    }
}

/// `s` with trailing whitespace removed.
pub open spec fn trim_back(s: Seq<char>) -> Seq<char>
    decreases s.len(),
{
    if s.len() > 0 && is_space(s.last()) {
        trim_back(s.drop_last())
    } else {
        s
    }
}

/// `s` with whitespace removed from both ends.
pub open spec fn trimmed(s: Seq<char>) -> Seq<char> {
    trim_back(trim_front(s))
}

/// The lines of `s`, split at every newline; a trailing newline does not
/// open an empty final line.
pub open spec fn split_lines(s: Seq<char>) -> Seq<Seq<char>>
    decreases s.len(),
{
    if s.len() == 0 {
        Seq::empty()
    } else {
        let e = find_first(s, '\n');
        if 0 <= e < s.len() {
            seq![s.take(e)] + split_lines(s.skip(e + 1))
        } else {
            seq![s]
        }
    }
}

/// A character allowed in a bare key.
pub open spec fn is_key_char(c: char) -> bool {
    ('a' as u32 <= c as u32 && c as u32 <= 'z' as u32) || ('A' as u32 <= c as u32 && c as u32
        <= 'Z' as u32) || ('0' as u32 <= c as u32 && c as u32 <= '9' as u32) || c == '_' || c == '-'
}

/// A non-empty run of bare key characters.
pub open spec fn is_bare_key(k: Seq<char>) -> bool {
    k.len() > 0 && forall|i: int| 0 <= i < k.len() ==> is_key_char(#[trigger] k[i])
}

/// The contents of a quoted string without escapes, if `t` is one.
pub open spec fn quoted_inner(t: Seq<char>) -> Option<Seq<char>> {
    if t.len() >= 2 && t[0] == '"' && t.last() == '"' {
        let inner = t.subrange(1, t.len() - 1);
        if forall|k: int| 0 <= k < inner.len() ==> (#[trigger] inner[k]) != '"' && inner[k] != '\\' {
            Some(inner)
        } else {
            None
        }
    } else {
        None
    }
}

/// `s` up to its first `#` that stands outside a quoted string; a comment
/// runs from there to the end of the line. `in_str` says whether the scan
/// starts inside a quoted string.
pub open spec fn cut_comment(s: Seq<char>, in_str: bool) -> Seq<char>
    decreases s.len(),
{
    if s.len() == 0 {
        s
    } else if !in_str && s.first() == '#' {
        Seq::empty()
    } else {
        seq![s.first()] + cut_comment(
            s.drop_first(),
            if s.first() == '"' {
                !in_str
            } else {
                in_str
            },
        )
    }
}

/// What one configuration line is.
pub enum LineKind {
    /// Empty, whitespace only, or a comment.
    Blank,
    /// A `[[redirect]]` table header.
    Header,
    /// A `key = "value"` entry.
    Entry(Seq<char>, Seq<char>),
    /// Anything else; the configuration is rejected.
    Bad,
}

/// The classification of one raw configuration line, after its comment, if
/// any, is cut off.
pub open spec fn classify_line(line: Seq<char>) -> LineKind {
    let t = trimmed(cut_comment(line, false));
    if t.len() == 0 {
        LineKind::Blank
    } else if t == "[[redirect]]"@ {
        LineKind::Header
    } else {
        let e = find_first(t, '=');
        if e == t.len() {
            LineKind::Bad
        } else {
            let key = trimmed(t.take(e));
            let valp = trimmed(t.skip(e + 1));
            if !is_bare_key(key) {
                LineKind::Bad
            } else {
                match quoted_inner(valp) {
                    Some(v) => LineKind::Entry(key, v),
                    None => LineKind::Bad,
                }
            }
        }
    }
}

/// A table under construction: the entries seen so far.
pub struct PartialRule {
    pub short: Option<Seq<char>>,
    pub url: Option<Seq<char>>,
}

/// A finished table must have both entries.
pub open spec fn finish_rule(p: PartialRule) -> Option<RuleModel> {
    match (p.short, p.url) {
        (Some(s), Some(u)) => Some(RuleModel { short: s, url: u }),
        _ => None,
    }
}

/// Folds the classified lines into a rule list. `cur` is the table being
/// filled, `acc` the rules finished so far; `None` rejects the whole
/// configuration: a malformed line, an entry outside any table, a repeated
/// entry inside a table, or a table missing one of its two entries.
pub open spec fn parse_lines(
    lines: Seq<Seq<char>>,
    cur: Option<PartialRule>,
    acc: Seq<RuleModel>,
) -> Option<Seq<RuleModel>>
    decreases lines.len(),
{
    if lines.len() == 0 {
        match cur {
            None => Some(acc),
            Some(p) => match finish_rule(p) {
                Some(r) => Some(acc.push(r)),
                None => None,
            },
        }
    } else {
        let rest = lines.drop_first();
        match classify_line(lines.first()) {
            LineKind::Blank => parse_lines(rest, cur, acc),
            LineKind::Header => match cur {
                None => parse_lines(rest, Some(PartialRule { short: None, url: None }), acc),
                Some(p) => match finish_rule(p) {
                    Some(r) => parse_lines(
                        rest,
                        Some(PartialRule { short: None, url: None }),
                        acc.push(r),
                    ),
                    None => None,
                },
            },
            LineKind::Entry(k, v) => match cur {
                None => None,
                Some(p) => if k == "short"@ {
                    if p.short is Some {
                        None
                    } else {
                        parse_lines(rest, Some(PartialRule { short: Some(v), url: p.url }), acc)
                    }
                } else if k == "url"@ {
                    if p.url is Some {
                        None
                    } else {
                        parse_lines(rest, Some(PartialRule { short: p.short, url: Some(v) }), acc)
                    }
                } else {
                    parse_lines(rest, cur, acc)
                },
            },
            LineKind::Bad => None,
        }
    }
}

/// The rule list described by a configuration text, or `None` when the
/// text does not match the grammar.
pub open spec fn parse_config_spec(s: Seq<char>) -> Option<Seq<RuleModel>> {
    parse_lines(split_lines(s), None, Seq::empty())
}

fn is_space_exec(c: char) -> (r: bool)
    ensures
        r == is_space(c),
{
    c == ' ' || c == '\t' || c == '\r'
}

/// The index of the first `c` in `v`, or its length.
fn find_char(v: &Vec<char>, c: char) -> (r: usize)
    ensures
        r == find_first(v@, c),
        r <= v@.len(),
{
    let n = v.len();
    for i in 0..n
        invariant
            n == v@.len(),
            forall|k: int| 0 <= k < i ==> v@[k] != c,
    {
        if v[i] == c {
            proof {
                lemma_find_first_is(v@, c, i as int);
            }
            return i;
        }
    }
    proof {
        lemma_find_first_is(v@, c, n as int);
    }
    n
}

/// `v` with whitespace removed from both ends.
fn trim(v: &Vec<char>) -> (r: Vec<char>)
    ensures
        r@ == trimmed(v@),
{
    let n = v.len();
    let mut start: usize = 0;
    proof {
        assert(v@.skip(0) =~= v@);
    }
    while start < n && is_space_exec(v[start])
        invariant
            start <= n,
            n == v@.len(),
            trim_front(v@) == trim_front(v@.skip(start as int)),
        decreases n - start,
    {
        proof {
            assert(v@.skip(start as int).drop_first() =~= v@.skip(start + 1));
        }
        start += 1;
    }
    proof {
        assert(trim_front(v@.skip(start as int)) == v@.skip(start as int));
    }
    let ghost t1 = v@.skip(start as int);
    let mut end: usize = n;
    while end > start && is_space_exec(v[end - 1])
        invariant
            start <= end <= n,
            n == v@.len(),
            t1 == v@.skip(start as int),
            trim_front(v@) == t1,
            trim_back(t1) == trim_back(v@.subrange(start as int, end as int)),
        decreases end,
    {
        proof {
            let part = v@.subrange(start as int, end as int);
            assert(part.last() == v@[end - 1]);
            assert(part.drop_last() =~= v@.subrange(start as int, end - 1));
        }
        end -= 1;
    }
    proof {
        let part = v@.subrange(start as int, end as int);
        if end > start {
            assert(part.last() == v@[end - 1]);
        }
        assert(trim_back(part) == part);
    }
    chars_subrange(v, start, end)
}

/// Whether two character vectors hold the same characters.
fn chars_eq(a: &Vec<char>, b: &Vec<char>) -> (r: bool)
    ensures
        r == (a@ == b@),
{
    if a.len() != b.len() {
        assert(a@.len() != b@.len());
        return false;
    }
    let n = a.len();
    for i in 0..n
        invariant
            n == a@.len() == b@.len(),
            forall|k: int| 0 <= k < i ==> a@[k] == b@[k],
    {
        if a[i] != b[i] {
            return false;
        }
    }
    assert(a@ =~= b@);
    true
}

fn is_key_char_exec(c: char) -> (r: bool)
    ensures
        r == is_key_char(c),
{
    let u = c as u32;
    ('a' as u32 <= u && u <= 'z' as u32) || ('A' as u32 <= u && u <= 'Z' as u32) || ('0' as u32 <= u
        && u <= '9' as u32) || c == '_' || c == '-'
}

fn check_bare_key(k: &Vec<char>) -> (r: bool)
    ensures
        r == is_bare_key(k@),
{
    if k.len() == 0 {
        return false;
    }
    let n = k.len();
    for i in 0..n
        invariant
            n == k@.len(),
            forall|x: int| 0 <= x < i ==> is_key_char(#[trigger] k@[x]),
    {
        if !is_key_char_exec(k[i]) {
            return false;
        }
    }
    true
}

/// The contents of `t` as a quoted string without escapes, if it is one.
fn quoted_value(t: &Vec<char>) -> (r: Option<Vec<char>>)
    ensures
        match r {
            Some(v) => quoted_inner(t@) == Some(v@),
            None => quoted_inner(t@) is None,
        },
{
    let n = t.len();
    if n < 2 || t[0] != '"' || t[n - 1] != '"' {
        return None;
    }
    let inner = chars_subrange(t, 1, n - 1);
    let m = inner.len();
    for i in 0..m
        invariant
            m == inner@.len(),
            inner@ == t@.subrange(1, n - 1),
            n == t@.len() >= 2,
            t@[0] == '"' && t@.last() == '"',
            forall|k: int| 0 <= k < i ==> (#[trigger] inner@[k]) != '"' && inner@[k] != '\\',
    {
        if inner[i] == '"' || inner[i] == '\\' {
            return None;
        }
    }
    Some(inner)
}

/// Executable counterpart of [`LineKind`], with owned characters.
enum ParsedLine {
    Blank,
    Header,
    Entry(Vec<char>, Vec<char>),
    Bad,
}

spec fn parsed_line_model(p: ParsedLine) -> LineKind {
    match p {
        ParsedLine::Blank => LineKind::Blank,
        ParsedLine::Header => LineKind::Header,
        ParsedLine::Entry(k, v) => LineKind::Entry(k@, v@),
        ParsedLine::Bad => LineKind::Bad,
    }
}

/// `v` with its comment, if any, cut off.
fn cut_comment_exec(v: &Vec<char>) -> (r: Vec<char>)
    ensures
        r@ == cut_comment(v@, false),
{
    let n = v.len();
    let mut r: Vec<char> = Vec::new();
    let mut in_str = false;
    proof {
        assert(v@.skip(0) =~= v@);
    }
    for i in 0..n
        invariant
            n == v@.len(),
            cut_comment(v@, false) == r@ + cut_comment(v@.skip(i as int), in_str),
    {
        let c = v[i];
        proof {
            assert(v@.skip(i as int).first() == v@[i as int]);
            assert(v@.skip(i as int).drop_first() =~= v@.skip(i + 1));
        }
        if !in_str && c == '#' {
            proof {
                assert(cut_comment(v@.skip(i as int), in_str) =~= Seq::<char>::empty());
                assert(cut_comment(v@, false) =~= r@);
            }
            return r;
        }
        let ghost prev = r@;
        r.push(c);
        if c == '"' {
            in_str = !in_str;
        }
        proof {
            assert(r@ =~= prev + seq![v@[i as int]]);
            assert(cut_comment(v@, false) =~= r@ + cut_comment(v@.skip(i + 1), in_str));
        }
    }
    proof {
        assert(v@.skip(n as int) =~= Seq::<char>::empty());
        assert(cut_comment(v@.skip(n as int), in_str) =~= Seq::<char>::empty());
        assert(cut_comment(v@, false) =~= r@);
    }
    r
}

/// Classifies one raw configuration line.
fn classify_exec(line: &Vec<char>) -> (r: ParsedLine)
    ensures
        parsed_line_model(r) == classify_line(line@),
{
    let uncommented = cut_comment_exec(line);
    let t = trim(&uncommented);
    if t.len() == 0 {
        return ParsedLine::Blank;
    }
    let header = str_to_chars("[[redirect]]");
    if chars_eq(&t, &header) {
        return ParsedLine::Header;
    }
    let e = find_char(&t, '=');
    proof {
        lemma_find_first(t@, '=');
    }
    if e == t.len() {
        return ParsedLine::Bad;
    }
    let before = chars_subrange(&t, 0, e);
    let after = chars_subrange(&t, e + 1, t.len());
    proof {
        assert(before@ =~= t@.take(e as int));
        assert(after@ =~= t@.skip(e + 1));
    }
    let key = trim(&before);
    let valp = trim(&after);
    if !check_bare_key(&key) {
        return ParsedLine::Bad;
    }
    match quoted_value(&valp) {
        Some(inner) => ParsedLine::Entry(key, inner),
        None => ParsedLine::Bad,
    }
}

/// The views of a vector of character lines.
spec fn line_models(lines: Seq<Vec<char>>) -> Seq<Seq<char>> {
    lines.map(|i: int, l: Vec<char>| l@)
}

/// Splits the characters of the configuration into its lines.
fn split_lines_exec(v: &Vec<char>) -> (r: Vec<Vec<char>>)
    ensures
        line_models(r@) == split_lines(v@),
{
    let n = v.len();
    let mut p: usize = 0;
    let mut r: Vec<Vec<char>> = Vec::new();
    proof {
        assert(v@.skip(0) =~= v@);
        assert(line_models(r@) =~= Seq::<Seq<char>>::empty());
    }
    while p < n
        invariant
            p <= n,
            n == v@.len(),
            line_models(r@) + split_lines(v@.skip(p as int)) == split_lines(v@),
        decreases n - p,
    {
        let rest = chars_subrange(v, p, n);
        proof {
            assert(rest@ =~= v@.skip(p as int));
        }
        let e = find_char(&rest, '\n');
        proof {
            lemma_find_first(rest@, '\n');
        }
        let ghost prev = r@;
        if e == rest.len() {
            proof {
                assert(split_lines(rest@) == seq![rest@]);
            }
            r.push(rest);
            proof {
                assert(line_models(r@) =~= line_models(prev) + seq![v@.skip(p as int)]);
                assert(v@.skip(n as int) =~= Seq::<char>::empty());
                assert(split_lines(v@.skip(n as int)) == Seq::<Seq<char>>::empty());
                assert(line_models(r@) + split_lines(v@.skip(n as int)) =~= split_lines(v@));
            }
            p = n;
        } else {
            let line = chars_subrange(&rest, 0, e);
            proof {
                assert(line@ =~= rest@.take(e as int));
                assert(rest@.skip(e + 1) =~= v@.skip(p + e + 1));
                assert(split_lines(rest@) == seq![rest@.take(e as int)] + split_lines(
                    v@.skip(p + e + 1),
                ));
            }
            r.push(line);
            proof {
                assert(line_models(r@) =~= line_models(prev) + seq![rest@.take(e as int)]);
                assert(line_models(r@) + split_lines(v@.skip(p + e + 1)) =~= split_lines(v@));
            }
            p = p + e + 1;
        }
    }
    proof {
        assert(v@.skip(n as int) =~= Seq::<char>::empty());
        assert(line_models(r@) + split_lines(v@.skip(n as int)) =~= line_models(r@));
    }
    r
}

/// A table under construction, with owned entry values.
struct PartialEntry {
    short: Option<String>,
    url: Option<String>,
}

spec fn partial_model(p: PartialEntry) -> PartialRule {
    PartialRule {
        short: match p.short {
            Some(s) => Some(s@),
            None => None,
        },
        url: match p.url {
            Some(u) => Some(u@),
            None => None,
        },
    }
}

spec fn cur_model(c: Option<PartialEntry>) -> Option<PartialRule> {
    match c {
        Some(p) => Some(partial_model(p)),
        None => None,
    }
}

/// Parses a configuration text into its rule list, or `None` when the text
/// does not match the grammar.
pub fn parse_config(text: &str) -> (r: Option<Vec<SiteRedirect>>)
    ensures
        match r {
            Some(v) => parse_config_spec(text@) == Some(rule_models(v@)),
            None => parse_config_spec(text@) is None,
        },
{
    let chars = str_to_chars(text);
    let lines = split_lines_exec(&chars);
    let ghost lmods = line_models(lines@);
    let n = lines.len();
    let mut acc: Vec<SiteRedirect> = Vec::new();
    let mut cur: Option<PartialEntry> = None;
    proof {
        assert(lmods.skip(0) =~= lmods);
        assert(rule_models(acc@) =~= Seq::<RuleModel>::empty());
    }
    for i in 0..n
        invariant
            n == lines@.len(),
            lmods == line_models(lines@),
            parse_config_spec(text@) == parse_lines(lmods, None, Seq::empty()),
            parse_lines(lmods.skip(i as int), cur_model(cur), rule_models(acc@)) == parse_lines(
                lmods,
                None,
                Seq::empty(),
            ),
    {
        let parsed = classify_exec(&lines[i]);
        proof {
            assert(lmods[i as int] == lines@[i as int]@);
            assert(lmods.skip(i as int).first() == lmods[i as int]);
            assert(lmods.skip(i as int).drop_first() =~= lmods.skip(i + 1));
        }
        let ghost prev_acc = rule_models(acc@);
        match parsed {
            ParsedLine::Blank => {},
            ParsedLine::Header => {
                let taken = cur.take();
                match taken {
                    None => {
                        cur = Some(PartialEntry { short: None, url: None });
                    },
                    Some(p) => {
                        let ghost pm = partial_model(p);
                        if p.short.is_some() && p.url.is_some() {
                            let s = p.short.unwrap();
                            let u = p.url.unwrap();
                            proof {
                                assert(finish_rule(pm) == Some(RuleModel { short: s@, url: u@ }));
                            }
                            acc.push(SiteRedirect { short: s, url: u });
                            cur = Some(PartialEntry { short: None, url: None });
                            assert(rule_models(acc@) =~= prev_acc.push(acc@.last()@));
                        } else {
                            proof {
                                assert(finish_rule(pm) is None);
                            }
                            return None;
                        }
                    },
                }
            },
            ParsedLine::Entry(key, value) => {
                let short_key = str_to_chars("short");
                let url_key = str_to_chars("url");
                let taken = cur.take();
                match taken {
                    None => {
                        return None;
                    },
                    Some(p) => {
                        let ghost pm = partial_model(p);
                        if chars_eq(&key, &short_key) {
                            if p.short.is_some() {
                                proof {
                                    assert(pm.short is Some);
                                }
                                return None;
                            }
                            let entry = chars_to_string(&value);
                            cur = Some(PartialEntry { short: Some(entry), url: p.url });
                            proof {
                                assert(cur_model(cur) == Some(
                                    PartialRule { short: Some(value@), url: pm.url },
                                ));
                            }
                        } else if chars_eq(&key, &url_key) {
                            if p.url.is_some() {
                                proof {
                                    assert(pm.url is Some);
                                }
                                return None;
                            }
                            let entry = chars_to_string(&value);
                            cur = Some(PartialEntry { short: p.short, url: Some(entry) });
                            proof {
                                assert(cur_model(cur) == Some(
                                    PartialRule { short: pm.short, url: Some(value@) },
                                ));
                            }
                        } else {
                            cur = Some(p);
                        }
                    },
                }
            },
            ParsedLine::Bad => {
                return None;
            },
        }
    }
    proof {
        assert(lmods.skip(n as int) =~= Seq::<Seq<char>>::empty());
    }
    let taken = cur.take();
    match taken {
        None => Some(acc),
        Some(p) => {
            let ghost pm = partial_model(p);
            if p.short.is_some() && p.url.is_some() {
                let s = p.short.unwrap();
                let u = p.url.unwrap();
                proof {
                    assert(finish_rule(pm) == Some(RuleModel { short: s@, url: u@ }));
                }
                let ghost prev_acc = rule_models(acc@);
                acc.push(SiteRedirect { short: s, url: u });
                assert(rule_models(acc@) =~= prev_acc.push(acc@.last()@));
                Some(acc)
            } else {
                proof {
                    assert(finish_rule(pm) is None);
                }
                None
            }
        },
    }
}

} // verus!
