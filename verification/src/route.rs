//! Route rules: which domains go through the proxy, which connect directly
//! and which are refused. Rules are kept in a trie over the reversed bytes of
//! their domains, so that a lookup finds the longest rule that is a suffix of
//! the requested domain.
use crate::rules::{parse_rules, parse_rules_spec, rules_view, RouteRule};
use std::collections::HashMap;
use vstd::prelude::*;
use vstd::string::StringSliceAdditionalSpecFns;

verus! {

broadcast use vstd::std_specs::hash::group_hash_axioms;

/// How a connection to a domain is handled.
#[derive(Clone, Copy, Debug, PartialEq, Eq, Structural)]
pub enum MatchType {
    Direct,
    Proxy,
    Deny,
}

/// The name of a match type, as rule files and logs write it.
pub open spec fn match_type_bytes(m: MatchType) -> Seq<u8> {
    match m {
        MatchType::Deny => seq![100u8, 101, 110, 121],
        MatchType::Direct => seq![100u8, 105, 114, 101, 99, 116],
        MatchType::Proxy => seq![112u8, 114, 111, 120, 121],
    }
}

impl MatchType {
    /// The name of the match type (what its `Display` writes).
    pub fn as_str(&self) -> (r: &'static str)
        ensures
            r.spec_bytes() == match_type_bytes(*self),
    {
        broadcast use vstd::string::is_ascii_spec_bytes;

        proof {
            reveal_strlit("deny");
            reveal_strlit("direct");
            reveal_strlit("proxy");
            assert(vstd::string::is_ascii("deny"));
            assert(vstd::string::is_ascii("direct"));
            assert(vstd::string::is_ascii("proxy"));
            assert("deny".spec_bytes() =~= seq![100u8, 101, 110, 121]);
            assert("direct".spec_bytes() =~= seq![100u8, 105, 114, 101, 99, 116]);
            assert("proxy".spec_bytes() =~= seq![112u8, 114, 111, 120, 121]);
        }
        match self {
            MatchType::Deny => "deny",
            MatchType::Direct => "direct",
            MatchType::Proxy => "proxy",
        }
    }
}

/// The name that `as_str` gives a match type reads back, in a rule file, as
/// that same match type.
pub proof fn lemma_match_type_name_roundtrip(m: MatchType)
    ensures
        crate::rules::match_type_of(match_type_bytes(m)) == Some(m),
{
    let deny = seq![100u8, 101, 110, 121];
    let direct = seq![100u8, 105, 114, 101, 99, 116];
    let proxy = seq![112u8, 114, 111, 120, 121];
    assert(deny.len() == 4 && direct.len() == 6 && proxy.len() == 5);
    assert(deny[1] != direct[1]);
}

/// The bytes of `s` in reverse order.
pub open spec fn reversed(s: Seq<u8>) -> Seq<u8> {
    Seq::new(s.len(), |i: int| s[s.len() - 1 - i])
}

/// `p` is a prefix of `k`.
pub open spec fn is_prefix(p: Seq<u8>, k: Seq<u8>) -> bool {
    p.len() <= k.len() && k.subrange(0, p.len() as int) == p
}

/// `s` is a suffix of `k`.
pub open spec fn is_suffix(s: Seq<u8>, k: Seq<u8>) -> bool {
    s.len() <= k.len() && k.subrange(k.len() - s.len(), k.len() as int) == s
}

/// The rule of the longest suffix of `domain` that has a rule, if any.
pub open spec fn longest_suffix_rule(rules: Map<Seq<u8>, MatchType>, domain: Seq<u8>) -> Option<
    MatchType,
>
    decreases domain.len(),
{
    if domain.len() == 0 {
        None
    } else if rules.contains_key(domain) {
        Some(rules[domain])
    } else {
        longest_suffix_rule(rules, domain.drop_first())
    }
}

/// Adding a rule for `domain` conflicts with the rules already present: some
/// rule's domain ends with `domain` (the same domain included).
pub open spec fn rule_conflicts(rules: Map<Seq<u8>, MatchType>, domain: Seq<u8>) -> bool {
    exists|k: Seq<u8>| #[trigger] rules.contains_key(k) && is_suffix(domain, k)
}

/// The rule of the longest prefix of `r` that is a key of `rkeys`.
pub open spec fn longest_prefix_rule(rkeys: Map<Seq<u8>, MatchType>, r: Seq<u8>) -> Option<
    MatchType,
>
    decreases r.len(),
{
    if r.len() == 0 {
        None
    } else if rkeys.contains_key(r) {
        Some(rkeys[r])
    } else {
        longest_prefix_rule(rkeys, r.drop_last())
    }
}

/// The key under which the edge from node `i` labelled `b` is stored.
pub open spec fn edge_key(i: int, b: u8) -> int {
    i * 256 + b
}

proof fn lemma_reversed_reversed(s: Seq<u8>)
    ensures
        reversed(reversed(s)) == s,
{
    assert(reversed(reversed(s)) =~= s);
}

proof fn lemma_suffix_iff_reversed_prefix(d: Seq<u8>, k: Seq<u8>)
    ensures
        is_suffix(d, k) <==> is_prefix(reversed(d), reversed(k)),
{
    let rd = reversed(d);
    let rk = reversed(k);
    if is_suffix(d, k) {
        assert forall|j: int| 0 <= j < rd.len() implies #[trigger] rk.subrange(0, rd.len() as int)[j]
            == rd[j] by {
            assert(k.subrange(k.len() - d.len(), k.len() as int)[d.len() - 1 - j] == d[d.len() - 1 - j]);
        }
        assert(rk.subrange(0, rd.len() as int) =~= rd);
    }
    if is_prefix(rd, rk) {
        assert forall|j: int| 0 <= j < d.len() implies #[trigger] k.subrange(
            k.len() - d.len(),
            k.len() as int,
        )[j] == d[j] by {
            assert(rk.subrange(0, rd.len() as int)[d.len() - 1 - j] == rk[d.len() - 1 - j]);
        }
        assert(k.subrange(k.len() - d.len(), k.len() as int) =~= d);
    }
}

proof fn lemma_reversed_drop_first(s: Seq<u8>)
    requires
        s.len() > 0,
    ensures
        reversed(s).drop_last() == reversed(s.drop_first()),
{
    assert(reversed(s).drop_last() =~= reversed(s.drop_first()));
}

/// A trie of route rules. Node `0` is the root; every other node stands for
/// the reversed bytes of a suffix of some rule's domain.
pub struct Trie {
    /// The rule that ends at each node, if any.
    match_types: Vec<Option<MatchType>>,
    /// The edges, keyed by `edge_key(parent, byte)`, giving the child node.
    edges: HashMap<u128, usize>,
    /// The reversed path from the root to each node.
    paths: Ghost<Seq<Seq<u8>>>,
    /// The node of each path.
    index: Ghost<Map<Seq<u8>, usize>>,
    /// The rules, keyed by the reversed bytes of their domains.
    rkeys: Ghost<Map<Seq<u8>, MatchType>>,
}

impl Trie {
    /// The rules held by the trie, keyed by the bytes of their domains.
    pub closed spec fn rules(&self) -> Map<Seq<u8>, MatchType> {
        Map::new(
            |k: Seq<u8>| self.rkeys@.contains_key(reversed(k)),
            |k: Seq<u8>| self.rkeys@[reversed(k)],
        )
    }

    #[verifier::opaque]
    closed spec fn structure_ok(&self) -> bool {
        let n = self.match_types@.len();
        let paths = self.paths@;
        let index = self.index@;
        let edges = self.edges@;
        &&& n >= 1
        &&& paths.len() == n
        &&& paths[0] == Seq::<u8>::empty()
        &&& forall|i: int| 0 <= i < n ==> #[trigger] index.contains_key(paths[i]) && index[paths[i]] == i
        &&& forall|p: Seq<u8>| #[trigger] index.contains_key(p) ==> index[p] < n && paths[index[p] as int] == p
        &&& forall|p: Seq<u8>| #[trigger] index.contains_key(p) && p.len() > 0 ==> index.contains_key(p.drop_last())
        &&& forall|i: int, b: u8| 0 <= i < n ==> (#[trigger] edges.contains_key(edge_key(i, b) as u128)
            <==> index.contains_key(paths[i].push(b)))
        &&& forall|i: int, b: u8| 0 <= i < n && #[trigger] edges.contains_key(edge_key(i, b) as u128)
            ==> edges[edge_key(i, b) as u128] == index[paths[i].push(b)]
        &&& forall|e: u128| #[trigger] edges.contains_key(e) ==> e < n * 256
    }

    #[verifier::opaque]
    closed spec fn keys_ok(&self) -> bool {
        let n = self.match_types@.len();
        let paths = self.paths@;
        let rkeys = self.rkeys@;
        &&& forall|i: int| 0 <= i < n ==> #[trigger] self.match_types@[i] == (if rkeys.contains_key(paths[i]) {
            Some(rkeys[paths[i]])
        } else {
            None
        })
        &&& forall|k: Seq<u8>| #[trigger] rkeys.contains_key(k) ==> self.index@.contains_key(k) && k.len() > 0
    }

    #[verifier::opaque]
    closed spec fn covered(&self, extra: Seq<u8>) -> bool {
        forall|p: Seq<u8>| #[trigger] self.index@.contains_key(p) && p.len() > 0 ==>
            (exists|k: Seq<u8>| #[trigger] self.rkeys@.contains_key(k) && is_prefix(p, k))
            || is_prefix(p, extra)
    }

    /// The trie's internal invariant.
    pub closed spec fn wf(&self) -> bool {
        &&& self.structure_ok()
        &&& self.keys_ok()
        &&& self.covered(Seq::empty())
    }

    proof fn lemma_prefix_closed(&self, p: Seq<u8>, q: Seq<u8>)
        requires
            self.structure_ok(),
            self.index@.contains_key(p),
            is_prefix(q, p),
        ensures
            self.index@.contains_key(q),
        decreases p.len() - q.len(),
    {
        reveal(Trie::structure_ok);
        if q.len() < p.len() {
            let p2 = p.drop_last();
            assert(self.index@.contains_key(p2));
            assert(is_prefix(q, p2)) by {
                assert(p2.subrange(0, q.len() as int) =~= p.subrange(0, q.len() as int));
            }
            self.lemma_prefix_closed(p2, q);
        } else {
            assert(p.subrange(0, q.len() as int) =~= p);
        }
    }

    proof fn lemma_conflict_is_node(&self, d: Seq<u8>)
        requires
            self.wf(),
            d.len() > 0,
        ensures
            rule_conflicts(self.rules(), d) <==> self.index@.contains_key(reversed(d)),
    {
        let rd = reversed(d);
        if rule_conflicts(self.rules(), d) {
            let k = choose|k: Seq<u8>| #[trigger] self.rules().contains_key(k) && is_suffix(d, k);
            let rk = reversed(k);
            lemma_suffix_iff_reversed_prefix(d, k);
            reveal(Trie::keys_ok);
            assert(self.rkeys@.contains_key(rk));
            self.lemma_prefix_closed(rk, rd);
        }
        if self.index@.contains_key(rd) {
            reveal(Trie::covered);
            assert(rd.len() > 0);
            assert(!is_prefix(rd, Seq::<u8>::empty()));
            let rk = choose|k: Seq<u8>| #[trigger] self.rkeys@.contains_key(k) && is_prefix(rd, k);
            let k = reversed(rk);
            lemma_reversed_reversed(rk);
            assert(self.rules().contains_key(k));
            lemma_suffix_iff_reversed_prefix(d, k);
        }
    }

    proof fn lemma_search_spec(&self, d: Seq<u8>)
        ensures
            longest_prefix_rule(self.rkeys@, reversed(d)) == longest_suffix_rule(self.rules(), d),
        decreases d.len(),
    {
        if d.len() > 0 {
            lemma_reversed_reversed(reversed(d));
            lemma_reversed_drop_first(d);
            self.lemma_search_spec(d.drop_first());
        }
    }

    proof fn lemma_no_key_beyond(&self, rd: Seq<u8>, i: int)
        requires
            self.structure_ok(),
            self.keys_ok(),
            0 <= i < rd.len(),
            !self.index@.contains_key(rd.subrange(0, i + 1)),
        ensures
            longest_prefix_rule(self.rkeys@, rd) == longest_prefix_rule(
                self.rkeys@,
                rd.subrange(0, i),
            ),
        decreases rd.len() - i,
    {
        reveal(Trie::keys_ok);
        if rd.len() > i + 1 {
            let r2 = rd.drop_last();
            assert(r2.subrange(0, i + 1) =~= rd.subrange(0, i + 1));
            assert(r2.subrange(0, i) =~= rd.subrange(0, i));
            self.lemma_no_key_beyond(r2, i);
        } else {
            assert(rd.drop_last() =~= rd.subrange(0, i));
            assert(rd =~= rd.subrange(0, i + 1));
        }
        if self.rkeys@.contains_key(rd) {
            assert(is_prefix(rd.subrange(0, i + 1), rd));
            self.lemma_prefix_closed(rd, rd.subrange(0, i + 1));
        }
    }

    /// Every rule's domain is nonempty.
    pub proof fn lemma_rule_domains_nonempty(&self)
        requires
            self.wf(),
        ensures
            forall|k: Seq<u8>| #[trigger] self.rules().contains_key(k) ==> k.len() > 0,
    {
        reveal(Trie::keys_ok);
        assert forall|k: Seq<u8>| #[trigger] self.rules().contains_key(k) implies k.len() > 0 by {
            assert(self.rkeys@.contains_key(reversed(k)));
        }
    }

    /// An empty trie.
    pub fn new() -> (t: Trie)
        ensures
            t.wf(),
            t.rules() == Map::<Seq<u8>, MatchType>::empty(),
    {
        let mut match_types: Vec<Option<MatchType>> = Vec::new();
        match_types.push(None);
        let t = Trie {
            match_types,
            edges: HashMap::new(),
            paths: Ghost(Seq::<Seq<u8>>::empty().push(Seq::<u8>::empty())),
            index: Ghost(Map::<Seq<u8>, usize>::empty().insert(Seq::<u8>::empty(), 0usize)),
            rkeys: Ghost(Map::empty()),
        };
        assert(t.rules() =~= Map::<Seq<u8>, MatchType>::empty());
        reveal(Trie::keys_ok);
        reveal(Trie::covered);
        assert(t.structure_ok()) by {
            reveal(Trie::structure_ok);
            assert forall|i: int, b: u8| 0 <= i < 1 implies (#[trigger] t.edges@.contains_key(
                edge_key(i, b) as u128,
            ) <==> t.index@.contains_key(t.paths@[i].push(b))) by {
                assert(t.paths@[i].push(b).len() == 1);
            }
        }
        t
    }

    /// The rule of the longest suffix of `url` that has a rule.
    pub fn search(&self, url: &str) -> (r: Option<MatchType>)
        requires
            self.wf(),
        ensures
            r == longest_suffix_rule(self.rules(), url.spec_bytes()),
    {
        self.search_bytes(url.as_bytes())
    }

    /// The rule of the longest suffix of `bytes` that has a rule.
    pub fn search_bytes(&self, bytes: &[u8]) -> (r: Option<MatchType>)
        requires
            self.wf(),
        ensures
            r == longest_suffix_rule(self.rules(), bytes@),
    {
        let n = bytes.len();
        let ghost rd = reversed(bytes@);
        let mut cur: usize = 0;
        let mut ret: Option<MatchType> = None;
        let mut i: usize = 0;
        let mut stop = false;
        proof {
            reveal(Trie::structure_ok);
            assert(rd.subrange(0, 0) =~= Seq::<u8>::empty());
        }
        while i < n && !stop
            invariant
                self.wf(),
                n == bytes@.len(),
                rd == reversed(bytes@),
                i <= n,
                cur < self.match_types@.len(),
                !stop ==> self.paths@[cur as int] == rd.subrange(0, i as int),
                !stop ==> ret == longest_prefix_rule(self.rkeys@, rd.subrange(0, i as int)),
                stop ==> ret == longest_prefix_rule(self.rkeys@, rd),
            decreases n - i, (if stop { 0int } else { 1int }),
        {
            let b = bytes[n - 1 - i];
            let key: u128 = (cur as u128) * 256 + (b as u128);
            proof {
                reveal(Trie::structure_ok);
                assert(key == edge_key(cur as int, b) as u128);
                assert(rd.subrange(0, i + 1) =~= rd.subrange(0, i as int).push(b));
            }
            match self.edges.get(&key) {
                Some(c) => {
                    proof {
                        reveal(Trie::structure_ok);
                        reveal(Trie::keys_ok);
                        assert(rd.subrange(0, i + 1).drop_last() =~= rd.subrange(0, i as int));
                    }
                    cur = *c;
                    match self.match_types[cur] {
                        Some(m) => {
                            ret = Some(m);
                        },
                        None => {},
                    }
                    i = i + 1;
                },
                None => {
                    proof {
                        reveal(Trie::structure_ok);
                        self.lemma_no_key_beyond(rd, i as int);
                    }
                    stop = true;
                },
            }
        }
        proof {
            if !stop {
                assert(rd.subrange(0, n as int) =~= rd);
            }
            self.lemma_search_spec(bytes@);
        }
        ret
    }

    /// Whether a rule for `bytes` may be added: the domain is not empty and no
    /// rule's domain ends with it.
    pub fn can_insert_bytes(&self, bytes: &[u8]) -> (r: bool)
        requires
            self.wf(),
        ensures
            r == (bytes@.len() > 0 && !rule_conflicts(self.rules(), bytes@)),
    {
        let n = bytes.len();
        if n == 0 {
            return false;
        }
        let ghost rd = reversed(bytes@);
        proof {
            self.lemma_conflict_is_node(bytes@);
            reveal(Trie::structure_ok);
            assert(rd.subrange(0, 0) =~= Seq::<u8>::empty());
        }
        let mut cur: usize = 0;
        let mut i: usize = 0;
        while i < n
            invariant
                self.wf(),
                n == bytes@.len(),
                rd == reversed(bytes@),
                n > 0,
                rule_conflicts(self.rules(), bytes@) <==> self.index@.contains_key(rd),
                i <= n,
                cur < self.match_types@.len(),
                cur < self.paths@.len(),
                self.paths@[cur as int] == rd.subrange(0, i as int),
            decreases n - i,
        {
            let b = bytes[n - 1 - i];
            let key: u128 = (cur as u128) * 256 + (b as u128);
            proof {
                reveal(Trie::structure_ok);
                assert(key == edge_key(cur as int, b) as u128);
                assert(rd.subrange(0, i + 1) =~= rd.subrange(0, i as int).push(b));
            }
            match self.edges.get(&key) {
                Some(c) => {
                    cur = *c;
                },
                None => {
                    proof {
                        reveal(Trie::structure_ok);
                        if self.index@.contains_key(rd) {
                            assert(is_prefix(rd.subrange(0, i + 1), rd));
                            self.lemma_prefix_closed(rd, rd.subrange(0, i + 1));
                        }
                    }
                    return true;
                },
            }
            i = i + 1;
        }
        proof {
            reveal(Trie::structure_ok);
            assert(rd.subrange(0, n as int) =~= rd);
        }
        false
    }

    /// Adds node `c`, the child of `cur` along byte `b`.
    fn add_node(&mut self, cur: usize, b: u8, mt: Option<MatchType>) -> (c: usize)
        requires
            old(self).structure_ok(),
            cur < old(self).match_types@.len(),
            cur < old(self).paths@.len(),
            !old(self).index@.contains_key(old(self).paths@[cur as int].push(b)),
        ensures
            final(self).structure_ok(),
            c == old(self).match_types@.len(),
            final(self).match_types@ == old(self).match_types@.push(mt),
            final(self).paths@ == old(self).paths@.push(old(self).paths@[cur as int].push(b)),
            final(self).index@ == old(self).index@.insert(old(self).paths@[cur as int].push(b), c),
            final(self).rkeys@ == old(self).rkeys@,
    {
        proof {
            reveal(Trie::structure_ok);
        }
        let c = self.match_types.len();
        let ghost p = self.paths@[cur as int].push(b);
        let ghost old_index = self.index@;
        let ghost old_paths = self.paths@;
        let ghost old_edges = self.edges@;
        let key: u128 = (cur as u128) * 256 + (b as u128);
        assert(key == edge_key(cur as int, b) as u128);
        self.match_types.push(mt);
        self.edges.insert(key, c);
        self.paths = Ghost(self.paths@.push(p));
        self.index = Ghost(self.index@.insert(p, c));
        proof {
            let n = self.match_types@.len();
            assert(self.edges@ == old_edges.insert(key, c));
            assert(key < c * 256);
            assert(p.drop_last() =~= old_paths[cur as int]);
            assert forall|i: int| 0 <= i < n implies #[trigger] self.index@.contains_key(self.paths@[i])
                && self.index@[self.paths@[i]] == i by {
                if i < c {
                    assert(self.paths@[i] == old_paths[i]);
                    assert(old_paths[i] != p);
                }
            }
            assert forall|i: int, b2: u8| 0 <= i < n implies (#[trigger] self.edges@.contains_key(
                edge_key(i, b2) as u128,
            ) <==> self.index@.contains_key(self.paths@[i].push(b2))) by {
                assert(edge_key(i, b2) as u128 == edge_key(i, b2));
                if i == c {
                    assert(self.paths@[i].push(b2).drop_last() =~= p);
                    assert(!old_index.contains_key(p));
                    assert(!old_edges.contains_key(edge_key(i, b2) as u128));
                    assert(edge_key(i, b2) as u128 != key);
                    assert(self.paths@[i] == p);
                    assert(!old_index.contains_key(p.push(b2)));
                    assert(!self.index@.contains_key(self.paths@[i].push(b2)));
                    assert(!self.edges@.contains_key(edge_key(i, b2) as u128));
                } else {
                    assert(self.paths@[i] == old_paths[i]);
                    if edge_key(i, b2) as u128 == key {
                        assert(i == cur && b2 == b);
                        assert(self.paths@[i].push(b2) == p);
                        assert(self.index@.contains_key(p));
                    } else {
                        assert(self.edges@.contains_key(edge_key(i, b2) as u128) == old_edges.contains_key(edge_key(i, b2) as u128));
                    }
                    if self.paths@[i].push(b2) == p {
                        assert(self.paths@[i].push(b2).drop_last() =~= self.paths@[i]);
                        assert(old_paths[i] == old_paths[cur as int]);
                        assert(b2 == b) by {
                            assert(self.paths@[i].push(b2).last() == p.last());
                        }
                        assert(i < c);
                        assert(old_index.contains_key(old_paths[i]));
                        assert(old_index.contains_key(old_paths[cur as int]));
                        assert(old_index[old_paths[i]] == i);
                        assert(i == cur as int);
                        assert(edge_key(i, b2) as u128 == key);
                    } else {
                        assert(self.index@.contains_key(self.paths@[i].push(b2)) == old_index.contains_key(old_paths[i].push(b2)));
                        assert(old_edges.contains_key(edge_key(i, b2) as u128) == old_index.contains_key(old_paths[i].push(b2)));
                    }
                }
            }
            assert forall|i: int, b2: u8| 0 <= i < n && #[trigger] self.edges@.contains_key(
                edge_key(i, b2) as u128,
            ) implies self.edges@[edge_key(i, b2) as u128] == self.index@[self.paths@[i].push(b2)] by {
                if i == c {
                    assert(self.paths@[i].push(b2).drop_last() =~= p);
                    assert(!old_edges.contains_key(edge_key(i, b2) as u128));
                } else {
                    assert(self.paths@[i] == old_paths[i]);
                    if self.paths@[i].push(b2) == p {
                        assert(self.paths@[i].push(b2).drop_last() =~= self.paths@[i]);
                        assert(old_paths[i] == old_paths[cur as int]);
                        assert(b2 == b) by {
                            assert(self.paths@[i].push(b2).last() == p.last());
                        }
                    }
                }
            }
        }
        c
    }

    /// Adds the rule `match_type` for `url`. Any rule whose domain ends with
    /// `url` (`url` itself included) makes the insertion a conflict, which
    /// the caller has excluded (see `can_insert`).
    pub fn insert(&mut self, url: &str, match_type: MatchType)
        requires
            old(self).wf(),
            url.spec_bytes().len() > 0,
            !rule_conflicts(old(self).rules(), url.spec_bytes()),
        ensures
            final(self).wf(),
            final(self).rules() == old(self).rules().insert(url.spec_bytes(), match_type),
    {
        self.insert_bytes(url.as_bytes(), match_type)
    }

    /// Adds the rule `match_type` for the domain with bytes `bytes`.
    pub fn insert_bytes(&mut self, bytes: &[u8], match_type: MatchType)
        requires
            old(self).wf(),
            bytes@.len() > 0,
            !rule_conflicts(old(self).rules(), bytes@),
        ensures
            final(self).wf(),
            final(self).rules() == old(self).rules().insert(bytes@, match_type),
    {
        let n = bytes.len();
        let ghost d = bytes@;
        let ghost rd = reversed(d);
        let ghost old_rkeys = self.rkeys@;
        proof {
            self.lemma_conflict_is_node(d);
            reveal(Trie::covered);
            reveal(Trie::structure_ok);
            assert(rd.subrange(0, 0) =~= Seq::<u8>::empty());
        }
        let mut cur: usize = 0;
        let mut i: usize = 0;
        while i + 1 < n
            invariant
                self.structure_ok(),
                self.keys_ok(),
                self.covered(rd),
                self.rkeys@ == old_rkeys,
                n == bytes@.len(),
                n > 0,
                d == bytes@,
                rd == reversed(d),
                i < n,
                cur < self.match_types@.len(),
                self.paths@[cur as int] == rd.subrange(0, i as int),
                !self.index@.contains_key(rd),
            decreases n - i,
        {
            let b = bytes[n - 1 - i];
            let key: u128 = (cur as u128) * 256 + (b as u128);
            proof {
                reveal(Trie::structure_ok);
                assert(key == edge_key(cur as int, b) as u128);
                assert(rd.subrange(0, i + 1) =~= rd.subrange(0, i as int).push(b));
            }
            match self.edges.get(&key) {
                Some(c) => {
                    cur = *c;
                },
                None => {
                    let ghost q = rd.subrange(0, i + 1);
                    cur = self.add_node(cur, b, None);
                    proof {
                        reveal(Trie::keys_ok);
                        reveal(Trie::covered);
                        reveal(Trie::structure_ok);
                        assert(q.len() != rd.len());
                        assert(is_prefix(q, rd));
                    }
                },
            }
            i = i + 1;
        }
        let b = bytes[0];
        proof {
            reveal(Trie::structure_ok);
            assert(i == n - 1);
            assert(rd =~= rd.subrange(0, i as int).push(b));
        }
        let ghost old_index = self.index@;
        let ghost old_paths = self.paths@;
        let _c = self.add_node(cur, b, Some(match_type));
        self.rkeys = Ghost(self.rkeys@.insert(rd, match_type));
        proof {
            reveal(Trie::keys_ok);
            reveal(Trie::covered);
            reveal(Trie::structure_ok);
            let nn = self.match_types@.len();
            assert forall|j: int| 0 <= j < nn implies #[trigger] self.match_types@[j] == (
            if self.rkeys@.contains_key(self.paths@[j]) {
                Some(self.rkeys@[self.paths@[j]])
            } else {
                None
            }) by {
                if j < nn - 1 {
                    assert(self.paths@[j] == old_paths[j]);
                    assert(old_index.contains_key(old_paths[j]));
                }
            }
            assert forall|p: Seq<u8>| #[trigger] self.index@.contains_key(p) && p.len() > 0 implies (
            exists|k: Seq<u8>| #[trigger] self.rkeys@.contains_key(k) && is_prefix(p, k)) || is_prefix(
                p,
                Seq::<u8>::empty(),
            ) by {
                if p == rd {
                    assert(self.rkeys@.contains_key(rd) && is_prefix(rd, rd)) by {
                        assert(rd.subrange(0, rd.len() as int) =~= rd);
                    }
                } else if is_prefix(p, rd) {
                    assert(self.rkeys@.contains_key(rd));
                } else {
                    assert(old_index.contains_key(p));
                    let k = choose|k: Seq<u8>| #[trigger] old_rkeys.contains_key(k) && is_prefix(p, k);
                    assert(self.rkeys@.contains_key(k));
                }
            }
            assert(self.structure_ok());
            assert(self.keys_ok());
            assert(self.covered(Seq::empty()));
            assert forall|k: Seq<u8>| true implies (#[trigger] self.rules().contains_key(k)
                <==> old(self).rules().insert(d, match_type).contains_key(k)) by {
                lemma_reversed_reversed(k);
                lemma_reversed_reversed(d);
            }
            assert(self.rules() =~= old(self).rules().insert(d, match_type)) by {
                assert forall|k: Seq<u8>| #[trigger] self.rules().contains_key(k) implies self.rules()[k]
                    == old(self).rules().insert(d, match_type)[k] by {
                    lemma_reversed_reversed(k);
                    lemma_reversed_reversed(d);
                }
            }
        }
    }
}

/// The rules after inserting `rs`, in order, into `m`.
pub open spec fn insert_rules(m: Map<Seq<u8>, MatchType>, rs: Seq<(Seq<u8>, MatchType)>) -> Map<
    Seq<u8>,
    MatchType,
>
    decreases rs.len(),
{
    if rs.len() == 0 {
        m
    } else {
        insert_rules(m, rs.drop_last()).insert(rs.last().0, rs.last().1)
    }
}

/// Each rule of `rs`, inserted in order into `m`, has a non-empty domain that
/// conflicts with none of the rules present before it.
pub open spec fn rules_insertable(m: Map<Seq<u8>, MatchType>, rs: Seq<(Seq<u8>, MatchType)>) -> bool
    decreases rs.len(),
{
    rs.len() == 0 || (rules_insertable(m, rs.drop_last()) && rs.last().0.len() > 0
        && !rule_conflicts(insert_rules(m, rs.drop_last()), rs.last().0))
}

proof fn lemma_insertable_prefix(m: Map<Seq<u8>, MatchType>, rs: Seq<(Seq<u8>, MatchType)>, k: int)
    requires
        0 <= k <= rs.len(),
        rules_insertable(m, rs),
    ensures
        rules_insertable(m, rs.take(k)),
    decreases rs.len() - k,
{
    if k < rs.len() {
        assert(rs.drop_last().take(k) =~= rs.take(k));
        lemma_insertable_prefix(m, rs.drop_last(), k);
    } else {
        assert(rs.take(k) =~= rs);
    }
}

/// A rule of the rule file that conflicts with the rules before it.
pub struct RuleConflict {
    /// The position of the rule among the rules read from the file.
    pub index: usize,
    /// The rule's domain.
    pub domain: Vec<u8>,
}

/// Inserting rules that each conflict with none before them adds one rule
/// per insertion: the rules stay finitely many, one for each inserted.
pub proof fn lemma_insert_rules_count(rs: Seq<(Seq<u8>, MatchType)>)
    requires
        rules_insertable(Map::empty(), rs),
    ensures
        insert_rules(Map::empty(), rs).dom().finite(),
        insert_rules(Map::empty(), rs).dom().len() == rs.len(),
    decreases rs.len(),
{
    if rs.len() > 0 {
        let prev = insert_rules(Map::<Seq<u8>, MatchType>::empty(), rs.drop_last());
        let d = rs.last().0;
        lemma_insert_rules_count(rs.drop_last());
        if prev.contains_key(d) {
            assert(is_suffix(d, d)) by {
                assert(d.subrange(0, d.len() as int) =~= d);
            }
            assert(rule_conflicts(prev, d));
        }
        assert(insert_rules(Map::empty(), rs).dom() == prev.dom().insert(d));
    } else {
        assert(insert_rules(Map::<Seq<u8>, MatchType>::empty(), rs).dom() =~= Set::<Seq<u8>>::empty());
    }
}

/// Matches domains against the route rules, falling back to a default.
pub struct RouteMatcher {
    trie: Trie,
    rule_count: usize,
    pub default_rule: MatchType,
}

/// What a `match_domain` lookup gives: the rule of the longest suffix of
/// `domain` that has one, else the default.
pub open spec fn matched_rule(rules: Map<Seq<u8>, MatchType>, default_rule: MatchType, domain: Seq<u8>) -> MatchType {
    match longest_suffix_rule(rules, domain) {
        Some(m) => m,
        None => default_rule,
    }
}

impl RouteMatcher {
    /// The rules held by the matcher, keyed by domain bytes.
    pub closed spec fn rules(&self) -> Map<Seq<u8>, MatchType> {
        self.trie.rules()
    }

    /// The matcher's internal invariant.
    pub closed spec fn wf(&self) -> bool {
        &&& self.trie.wf()
        &&& self.trie.rules().dom().finite()
        &&& self.rule_count == self.trie.rules().dom().len()
    }

    /// How many rules the matcher holds.
    pub fn get_count(&self) -> (r: usize)
        requires
            self.wf(),
        ensures
            r == self.rules().dom().len(),
            self.rules().dom().finite(),
    {
        self.rule_count
    }

    /// Every rule's domain is nonempty.
    pub proof fn lemma_rule_domains_nonempty(&self)
        requires
            self.wf(),
        ensures
            forall|k: Seq<u8>| #[trigger] self.rules().contains_key(k) ==> k.len() > 0,
    {
        self.trie.lemma_rule_domains_nonempty();
    }

    /// The rule used for domains that no rule matches.
    pub closed spec fn default_match(&self) -> MatchType {
        self.default_rule
    }

    /// Builds the matcher from the text of a rule file, if one is given.
    /// Rules are added in file order; the first rule that conflicts with an
    /// earlier one (its domain is a suffix of an earlier rule's domain) is
    /// reported instead.
    pub fn load(default_rule: MatchType, rules_text: Option<&[u8]>) -> (r: Result<RouteMatcher, RuleConflict>)
        ensures
            match rules_text {
                None => r matches Ok(m) && m.wf() && m.default_match() == default_rule
                    && m.rules() == Map::<Seq<u8>, MatchType>::empty(),
                Some(t) => {
                    let rs = parse_rules_spec(t@);
                    &&& (r is Ok <==> rules_insertable(Map::empty(), rs))
                    &&& (r matches Ok(m) ==> m.wf() && m.default_match() == default_rule
                        && m.rules() == insert_rules(Map::empty(), rs))
                    &&& (r matches Err(e) ==> e.index < rs.len() && e.domain@ == rs[e.index as int].0
                        && rules_insertable(Map::empty(), rs.take(e.index as int))
                        && !rules_insertable(Map::empty(), rs.take(e.index + 1)))
                },
            },
    {
        let mut trie = Trie::new();
        match rules_text {
            None => {
                assert(trie.rules().dom() =~= Set::<Seq<u8>>::empty());
                Ok(RouteMatcher { trie, rule_count: 0, default_rule })
            },
            Some(text) => {
                let rules: Vec<RouteRule> = parse_rules(text);
                let ghost rs = rules_view(rules@);
                let n = rules.len();
                let mut i: usize = 0;
                proof {
                    assert(rs.take(0) =~= Seq::<(Seq<u8>, MatchType)>::empty());
                }
                while i < n
                    invariant
                        rules_text == Some(text),
                        n == rules@.len(),
                        rs == rules_view(rules@),
                        rs == parse_rules_spec(text@),
                        i <= n,
                        trie.wf(),
                        trie.rules() == insert_rules(Map::empty(), rs.take(i as int)),
                        rules_insertable(Map::empty(), rs.take(i as int)),
                    decreases n - i,
                {
                    let rule = &rules[i];
                    proof {
                        assert(rs.take(i + 1).drop_last() =~= rs.take(i as int));
                        assert(rs.take(i + 1).last() == (rule.domain@, rule.match_type));
                    }
                    if !trie.can_insert_bytes(rule.domain.as_slice()) {
                        proof {
                            if rules_insertable(Map::empty(), rs) {
                                lemma_insertable_prefix(Map::empty(), rs, i + 1);
                            }
                        }
                        return Err(RuleConflict { index: i, domain: rule.domain.clone() });
                    }
                    trie.insert_bytes(rule.domain.as_slice(), rule.match_type);
                    i = i + 1;
                }
                proof {
                    assert(rs.take(n as int) =~= rs);
                    lemma_insert_rules_count(rs);
                }
                Ok(RouteMatcher { trie, rule_count: n, default_rule })
            },
        }
    }

    /// The match type of `domain`: the rule of its longest suffix that has a
    /// rule, else the default rule.
    pub fn match_domain(&self, domain: &str) -> (r: MatchType)
        requires
            self.wf(),
        ensures
            r == matched_rule(self.rules(), self.default_match(), domain.spec_bytes()),
    {
        match self.trie.search(domain) {
            Some(m) => m,
            None => self.default_rule,
        }
    }
}

/// A domain that has just been given a rule is matched by that rule.
pub proof fn lemma_new_rule_matches_its_domain(
    rules: Map<Seq<u8>, MatchType>,
    default_rule: MatchType,
    domain: Seq<u8>,
    match_type: MatchType,
)
    requires
        domain.len() > 0,
    ensures
        matched_rule(rules.insert(domain, match_type), default_rule, domain) == match_type,
{
}

/// A rule applies to every domain that ends with the rule's domain (its
/// subdomains among them), unless a longer suffix of that domain has a rule
/// of its own.
pub proof fn lemma_rule_matches_suffixed_domains(
    rules: Map<Seq<u8>, MatchType>,
    default_rule: MatchType,
    rule_domain: Seq<u8>,
    domain: Seq<u8>,
)
    requires
        rule_domain.len() > 0,
        rules.contains_key(rule_domain),
        is_suffix(rule_domain, domain),
        forall|k: int| 0 <= k < domain.len() - rule_domain.len() ==> !rules.contains_key(
            #[trigger] domain.subrange(k, domain.len() as int),
        ),
    ensures
        matched_rule(rules, default_rule, domain) == rules[rule_domain],
    decreases domain.len(),
{
    if domain.len() > rule_domain.len() {
        assert(domain.subrange(0, domain.len() as int) =~= domain);
        assert(!rules.contains_key(domain));
        let rest = domain.drop_first();
        assert(is_suffix(rule_domain, rest)) by {
            assert(rest.subrange(rest.len() - rule_domain.len(), rest.len() as int) =~= domain.subrange(
                domain.len() - rule_domain.len(),
                domain.len() as int,
            ));
        }
        assert forall|k: int| 0 <= k < rest.len() - rule_domain.len() implies !rules.contains_key(
            #[trigger] rest.subrange(k, rest.len() as int),
        ) by {
            assert(rest.subrange(k, rest.len() as int) =~= domain.subrange(k + 1, domain.len() as int));
        }
        lemma_rule_matches_suffixed_domains(rules, default_rule, rule_domain, rest);
    } else {
        assert(domain.subrange(0, domain.len() as int) =~= domain);
        assert(domain == rule_domain);
    }
}

} // verus!
