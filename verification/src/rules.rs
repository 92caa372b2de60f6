//! The route rule file: one `domain: match-type` rule per line, where the
//! match type is `deny`, `direct` or `proxy`. Blank lines and lines starting
//! with `#` are skipped, and so are malformed lines.
use crate::route::MatchType;
use vstd::prelude::*;

verus! {

/// ASCII whitespace as `u8::is_ascii_whitespace` defines it.
pub open spec fn is_ascii_ws(b: u8) -> bool {
    b == 32 || b == 9 || b == 10 || b == 12 || b == 13
}

/// `s` without its leading ASCII whitespace.
pub open spec fn trim_start(s: Seq<u8>) -> Seq<u8>
    decreases s.len(),
{
    if s.len() > 0 && is_ascii_ws(s[0]) {
        trim_start(s.drop_first())
    } else {
        s
    }
}

/// `s` without its trailing ASCII whitespace.
pub open spec fn trim_end(s: Seq<u8>) -> Seq<u8>
    decreases s.len(),
{
    if s.len() > 0 && is_ascii_ws(s.last()) {
        trim_end(s.drop_last())
    } else {
        s
    }
}

/// `s` without leading or trailing ASCII whitespace (`trim_ascii`).
pub open spec fn trim(s: Seq<u8>) -> Seq<u8> {
    trim_end(trim_start(s))
}

/// The position of the first `c` in `t`, or the length of `t` when there is none.
pub open spec fn index_of(t: Seq<u8>, c: u8) -> nat
    decreases t.len(),
{
    if t.len() == 0 {
        0
    } else if t[0] == c {
        0
    } else {
        1 + index_of(t.drop_first(), c)
    }
}

/// The match type named by `s`.
pub open spec fn match_type_of(s: Seq<u8>) -> Option<MatchType> {
    if s == seq![100u8, 101, 110, 121] {
        Some(MatchType::Deny)
    } else if s == seq![100u8, 105, 114, 101, 99, 116] {
        Some(MatchType::Direct)
    } else if s == seq![112u8, 114, 111, 120, 121] {
        Some(MatchType::Proxy)
    } else {
        None
    }
}

/// The rule that one line of the rule file gives, if it is a well-formed rule.
pub open spec fn rule_of_line(l: Seq<u8>) -> Option<(Seq<u8>, MatchType)> {
    let t = trim(l);
    if t.len() == 0 || t[0] == 35 {
        None
    } else {
        let c = index_of(l, 58);
        let domain = trim(l.subrange(0, c as int));
        if domain.len() == 0 || c >= l.len() {
            None
        } else {
            match match_type_of(trim(l.subrange(c + 1int, l.len() as int))) {
                Some(m) => Some((domain, m)),
                None => None,
            }
        }
    }
}

/// `index_of` stays within `t`, points at a `c` when it is not the length,
/// and no `c` comes before it.
pub proof fn lemma_index_of_bound(t: Seq<u8>, c: u8)
    ensures
        index_of(t, c) <= t.len(),
        index_of(t, c) < t.len() ==> t[index_of(t, c) as int] == c,
        forall|j: int| 0 <= j < index_of(t, c) ==> t[j] != c,
    decreases t.len(),
{
    if t.len() > 0 && t[0] != c {
        lemma_index_of_bound(t.drop_first(), c);
        assert forall|j: int| 0 <= j < index_of(t, c) implies t[j] != c by {
            if j > 0 {
                assert(t[j] == t.drop_first()[j - 1]);
            }
        }
    }
}

/// The rules of a rule file, in file order.
pub open spec fn parse_rules_spec(t: Seq<u8>) -> Seq<(Seq<u8>, MatchType)>
    decreases t.len(),
{
    let i = index_of(t, 10);
    let head = rule_of_line(t.subrange(0, i as int));
    let rest = if i < t.len() {
        proof {
            lemma_index_of_bound(t, 10);
        }
        parse_rules_spec(t.subrange(i + 1int, t.len() as int))
    } else {
        Seq::empty()
    };
    match head {
        Some(r) => seq![r] + rest,
        None => rest,
    }
}

/// The rule file is read line by line: a line followed by a newline adds
/// its rule, if it holds one, in front of the rules of the rest of the file,
/// and adds nothing otherwise (blank, comment and malformed lines).
pub proof fn lemma_parse_rules_line_by_line(line: Seq<u8>, rest: Seq<u8>)
    requires
        !line.contains(10u8),
    ensures
        parse_rules_spec(line + seq![10u8] + rest) == match rule_of_line(line) {
            Some(r) => seq![r] + parse_rules_spec(rest),
            None => parse_rules_spec(rest),
        },
{
    let t = line + seq![10u8] + rest;
    lemma_index_of_prefix(line, seq![10u8] + rest, 10);
    assert(t =~= line + (seq![10u8] + rest));
    lemma_index_of_bound(t, 10);
    assert(t.subrange(0, line.len() as int) =~= line);
    assert(t.subrange(line.len() + 1int, t.len() as int) =~= rest);
}

/// Where `t` starts with `a`, which holds no `c`, the first `c` of `t` is
/// the first `c` of what follows `a`, shifted by the length of `a`.
proof fn lemma_index_of_prefix(a: Seq<u8>, b: Seq<u8>, c: u8)
    requires
        !a.contains(c),
    ensures
        index_of(a + b, c) == a.len() + index_of(b, c),
    decreases a.len(),
{
    if a.len() > 0 {
        assert(a[0] != c);
        assert((a + b).drop_first() =~= a.drop_first() + b);
        assert(!a.drop_first().contains(c)) by {
            if a.drop_first().contains(c) {
                let j = choose|j: int| 0 <= j < a.drop_first().len() && a.drop_first()[j] == c;
                assert(a[j + 1] == c);
            }
        }
        lemma_index_of_prefix(a.drop_first(), b, c);
    } else {
        assert(a + b =~= b);
    }
}

proof fn lemma_trim_no_ws_ends(s: Seq<u8>)
    requires
        s.len() > 0,
        !is_ascii_ws(s[0]),
        !is_ascii_ws(s.last()),
    ensures
        trim(s) == s,
{
    assert(trim_start(s) == s);
}

/// A rule written as its domain, `:` and the match type's name (as
/// `MatchType::as_str` writes it) is read back as that same rule, when the
/// domain holds no `:` or newline, does not begin with `#`, and has no
/// whitespace at its ends.
pub proof fn lemma_rule_line_roundtrip(domain: Seq<u8>, m: MatchType)
    requires
        domain.len() > 0,
        !domain.contains(58u8),
        !domain.contains(10u8),
        domain[0] != 35,
        !is_ascii_ws(domain[0]),
        !is_ascii_ws(domain.last()),
    ensures
        parse_rules_spec(domain + seq![58u8] + crate::route::match_type_bytes(m)) == seq![(domain, m)],
{
    let name = crate::route::match_type_bytes(m);
    let line = domain + seq![58u8] + name;
    crate::route::lemma_match_type_name_roundtrip(m);
    assert(name.len() > 0 && !is_ascii_ws(name[0]) && !is_ascii_ws(name.last()));
    assert(!name.contains(58u8) && !name.contains(10u8)) by {
        assert(name.len() <= 6);
        if name.contains(58u8) || name.contains(10u8) {
            let j = choose|j: int| 0 <= j < name.len() && (name[j] == 58u8 || name[j] == 10u8);
            assert(false);
        }
    }
    assert(line.last() == name.last());
    assert(line[0] == domain[0]);
    lemma_trim_no_ws_ends(line);
    lemma_trim_no_ws_ends(domain);
    lemma_trim_no_ws_ends(name);
    lemma_index_of_prefix(domain, seq![58u8] + name, 58);
    assert(line =~= domain + (seq![58u8] + name));
    assert(line.subrange(0, domain.len() as int) =~= domain);
    assert(line.subrange(domain.len() + 1int, line.len() as int) =~= name);
    assert(!line.contains(10u8)) by {
        if line.contains(10u8) {
            let j = choose|j: int| 0 <= j < line.len() && line[j] == 10u8;
            if j < domain.len() {
                assert(domain[j] == 10u8);
            } else if j > domain.len() {
                assert(name[j - domain.len() - 1] == 10u8);
            }
        }
    }
    lemma_index_of_prefix(line, Seq::<u8>::empty(), 10);
    assert(line + Seq::<u8>::empty() =~= line);
    assert(line.subrange(0, line.len() as int) =~= line);
    assert(rule_of_line(line) == Some((domain, m)));
    assert(parse_rules_spec(line) =~= seq![(domain, m)] + Seq::<(Seq<u8>, MatchType)>::empty());
}

/// A rule read from the rule file.
pub struct RouteRule {
    pub domain: Vec<u8>,
    pub match_type: MatchType,
}

/// The rules as pairs of domain bytes and match type.
pub open spec fn rules_view(v: Seq<RouteRule>) -> Seq<(Seq<u8>, MatchType)> {
    v.map_values(|r: RouteRule| (r.domain@, r.match_type))
}

/// The position of the first `c` in `t[from..to]`, or `to` when there is none.
fn find_byte(t: &[u8], from: usize, to: usize, c: u8) -> (r: usize)
    requires
        from <= to <= t@.len(),
    ensures
        r == from + index_of(t@.subrange(from as int, to as int), c),
{
    let mut j = from;
    while j < to && t[j] != c
        invariant
            from <= j <= to,
            to <= t@.len(),
            index_of(t@.subrange(from as int, to as int), c) == (j - from) + index_of(
                t@.subrange(j as int, to as int),
                c,
            ),
        decreases to - j,
    {
        assert(t@.subrange(j as int, to as int).drop_first() =~= t@.subrange(j + 1, to as int));
        j = j + 1;
    }
    j
}

/// The bounds of `t[lo..hi]` with leading and trailing ASCII whitespace removed.
fn trim_range(t: &[u8], lo: usize, hi: usize) -> (r: (usize, usize))
    requires
        lo <= hi <= t@.len(),
    ensures
        lo <= r.0 <= r.1 <= hi,
        t@.subrange(r.0 as int, r.1 as int) == trim(t@.subrange(lo as int, hi as int)),
{
    let mut a = lo;
    while a < hi && (t[a] == 32 || t[a] == 9 || t[a] == 10 || t[a] == 12 || t[a] == 13)
        invariant
            lo <= a <= hi,
            hi <= t@.len(),
            trim_start(t@.subrange(lo as int, hi as int)) == trim_start(t@.subrange(a as int, hi as int)),
        decreases hi - a,
    {
        assert(t@.subrange(a as int, hi as int).drop_first() =~= t@.subrange(a + 1, hi as int));
        a = a + 1;
    }
    let mut b = hi;
    while b > a && (t[b - 1] == 32 || t[b - 1] == 9 || t[b - 1] == 10 || t[b - 1] == 12 || t[b - 1] == 13)
        invariant
            lo <= a <= b <= hi,
            hi <= t@.len(),
            trim(t@.subrange(lo as int, hi as int)) == trim_end(t@.subrange(a as int, b as int)),
        decreases b - a,
    {
        assert(t@.subrange(a as int, b as int).drop_last() =~= t@.subrange(a as int, b - 1));
        b = b - 1;
    }
    (a, b)
}

/// The match type named by `t[lo..hi]`.
fn parse_match_type(t: &[u8], lo: usize, hi: usize) -> (r: Option<MatchType>)
    requires
        lo <= hi <= t@.len(),
    ensures
        r == match_type_of(t@.subrange(lo as int, hi as int)),
{
    let ghost s = t@.subrange(lo as int, hi as int);
    let len = hi - lo;
    let ghost deny = seq![100u8, 101, 110, 121];
    let ghost direct = seq![100u8, 105, 114, 101, 99, 116];
    let ghost proxy = seq![112u8, 114, 111, 120, 121];
    assert(deny.len() == 4 && direct.len() == 6 && proxy.len() == 5);
    assert(s.len() == len);
    if len == 4 && t[lo] == 100 && t[lo + 1] == 101 && t[lo + 2] == 110 && t[lo + 3] == 121 {
        assert(s =~= seq![100u8, 101, 110, 121]);
        Some(MatchType::Deny)
    } else if len == 6 && t[lo] == 100 && t[lo + 1] == 105 && t[lo + 2] == 114 && t[lo + 3] == 101
        && t[lo + 4] == 99 && t[lo + 5] == 116 {
        assert(s =~= seq![100u8, 105, 114, 101, 99, 116]);
        Some(MatchType::Direct)
    } else if len == 5 && t[lo] == 112 && t[lo + 1] == 114 && t[lo + 2] == 111 && t[lo + 3] == 120
        && t[lo + 4] == 121 {
        assert(s =~= seq![112u8, 114, 111, 120, 121]);
        Some(MatchType::Proxy)
    } else {
        proof {
            if s == seq![100u8, 101, 110, 121] {
                assert(s[0] == 100 && s[1] == 101 && s[2] == 110 && s[3] == 121);
            }
            if s == seq![100u8, 105, 114, 101, 99, 116] {
                assert(s[0] == 100 && s[1] == 105 && s[2] == 114 && s[3] == 101 && s[4] == 99 && s[5] == 116);
            }
            if s == seq![112u8, 114, 111, 120, 121] {
                assert(s[0] == 112 && s[1] == 114 && s[2] == 111 && s[3] == 120 && s[4] == 121);
            }
        }
        None
    }
}

/// Copies `t[lo..hi]` into a new vector.
pub(crate) fn copy_range(t: &[u8], lo: usize, hi: usize) -> (r: Vec<u8>)
    requires
        lo <= hi <= t@.len(),
    ensures
        r@ == t@.subrange(lo as int, hi as int),
{
    let mut out: Vec<u8> = Vec::new();
    let mut i = lo;
    while i < hi
        invariant
            lo <= i <= hi,
            hi <= t@.len(),
            out@ == t@.subrange(lo as int, i as int),
        decreases hi - i,
    {
        out.push(t[i]);
        assert(out@ =~= t@.subrange(lo as int, i + 1));
        i = i + 1;
    }
    out
}

/// The rule on the line `t[lo..hi]`, if it is a well-formed rule.
fn parse_rule_line(t: &[u8], lo: usize, hi: usize) -> (r: Option<RouteRule>)
    requires
        lo <= hi <= t@.len(),
    ensures
        match r {
            Some(rule) => rule_of_line(t@.subrange(lo as int, hi as int)) == Some(
                (rule.domain@, rule.match_type),
            ),
            None => rule_of_line(t@.subrange(lo as int, hi as int)) is None,
        },
{
    let ghost l = t@.subrange(lo as int, hi as int);
    let (a, b) = trim_range(t, lo, hi);
    if a == b || t[a] == 35 {
        return None;
    }
    let c = find_byte(t, lo, hi, 58);
    proof {
        lemma_index_of_bound(l, 58);
        assert(l.subrange(0, (c - lo) as int) =~= t@.subrange(lo as int, c as int));
    }
    let (da, db) = trim_range(t, lo, c);
    if da == db || c >= hi {
        return None;
    }
    proof {
        assert(l.subrange(c - lo + 1, l.len() as int) =~= t@.subrange(c + 1, hi as int));
    }
    let (ma, mb) = trim_range(t, c + 1, hi);
    match parse_match_type(t, ma, mb) {
        Some(m) => {
            let domain = copy_range(t, da, db);
            Some(RouteRule { domain, match_type: m })
        },
        None => None,
    }
}

/// Reads the rules of a rule file, in file order, skipping blank lines,
/// comment lines starting with `#` and malformed lines.
pub fn parse_rules(text: &[u8]) -> (r: Vec<RouteRule>)
    ensures
        rules_view(r@) == parse_rules_spec(text@),
{
    let n = text.len();
    let mut out: Vec<RouteRule> = Vec::new();
    let mut pos: usize = 0;
    let mut done = false;
    proof {
        assert(text@.subrange(0, n as int) =~= text@);
    }
    while !done
        invariant
            n == text@.len(),
            pos <= n,
            !done ==> rules_view(out@) + parse_rules_spec(text@.subrange(pos as int, n as int))
                == parse_rules_spec(text@),
            done ==> rules_view(out@) == parse_rules_spec(text@),
        decreases n - pos, (if done { 0int } else { 1int }),
    {
        let ghost rest = text@.subrange(pos as int, n as int);
        let ghost old_view = rules_view(out@);
        let e = find_byte(text, pos, n, 10);
        proof {
            lemma_index_of_bound(rest, 10);
            assert(rest.subrange(0, (e - pos) as int) =~= text@.subrange(pos as int, e as int));
        }
        let line = parse_rule_line(text, pos, e);
        let ghost head = rule_of_line(rest.subrange(0, (e - pos) as int));
        match line {
            Some(rule) => {
                out.push(rule);
                proof {
                    assert(rules_view(out@) =~= old_view + seq![head.unwrap()]);
                }
            },
            None => {
                assert(rules_view(out@) =~= old_view);
            },
        }
        proof {
            assert(rules_view(out@) == old_view + match head {
                Some(r) => seq![r],
                None => Seq::<(Seq<u8>, MatchType)>::empty(),
            });
        }
        if e == n {
            proof {
                assert(rules_view(out@) =~= old_view + parse_rules_spec(rest));
            }
            done = true;
        } else {
            proof {
                assert(rest.subrange(e - pos + 1, rest.len() as int) =~= text@.subrange(e + 1, n as int));
                assert(rules_view(out@) + parse_rules_spec(text@.subrange(e + 1, n as int))
                    =~= old_view + parse_rules_spec(rest));
            }
            pos = e + 1;
        }
    }
    out
}

} // verus!
