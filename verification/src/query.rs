//! Query-string parsing.
//!
//! A raw query string is split on `&` into pairs, each pair is split on
//! its first `=` into a key and a value, pairs with an empty key are
//! dropped, and the rest are folded into a string-to-string mapping in
//! which a repeated key keeps its last occurrence.

use vstd::prelude::*;

verus! {

/// The pieces of `s` between occurrences of `sep`, in order.
///
/// The empty string yields one empty piece, and every separator ends
/// the piece before it, so `n` separators always yield `n + 1` pieces.
pub open spec fn split_on(s: Seq<char>, sep: char) -> Seq<Seq<char>>
    decreases s.len(),
{
    if s.len() == 0 {
        seq![Seq::<char>::empty()]
    } else if s.last() == sep {
        split_on(s.drop_last(), sep).push(Seq::<char>::empty())
    } else {
        let parts = split_on(s.drop_last(), sep);
        parts.update(parts.len() - 1, parts.last().push(s.last()))
    }
}

/// The characters of `p` before its first `=`, or all of `p` when it
/// has none.
pub open spec fn key_of(p: Seq<char>) -> Seq<char>
    decreases p.len(),
{
    if p.len() == 0 {
        Seq::<char>::empty()
    } else if p.first() == '=' {
        Seq::<char>::empty()
    } else {
        seq![p.first()] + key_of(p.drop_first())
    }
}

/// The characters of `p` after its first `=`, or the empty string when
/// it has none.
pub open spec fn val_of(p: Seq<char>) -> Seq<char>
    decreases p.len(),
{
    if p.len() == 0 {
        Seq::<char>::empty()
    } else if p.first() == '=' {
        p.drop_first()
    } else {
        val_of(p.drop_first())
    }
}

/// The key/value pairs of the given pieces, in order, with the pieces
/// whose key is empty dropped.
pub open spec fn kept_pairs(pieces: Seq<Seq<char>>) -> Seq<(Seq<char>, Seq<char>)>
    decreases pieces.len(),
{
    if pieces.len() == 0 {
        Seq::<(Seq<char>, Seq<char>)>::empty()
    } else {
        let rest = kept_pairs(pieces.drop_last());
        let p = pieces.last();
        if key_of(p).len() == 0 {
            rest
        } else {
            rest.push((key_of(p), val_of(p)))
        }
    }
}

/// The mapping that a pair list builds up front to back: a later pair
/// overwrites an earlier one with the same key.
pub open spec fn map_of_pairs(ps: Seq<(Seq<char>, Seq<char>)>) -> Map<Seq<char>, Seq<char>>
    decreases ps.len(),
{
    if ps.len() == 0 {
        Map::<Seq<char>, Seq<char>>::empty()
    } else {
        map_of_pairs(ps.drop_last()).insert(ps.last().0, ps.last().1)
    }
}

/// The mapping that a raw query string denotes.
pub open spec fn parse_query_spec(q: Seq<char>) -> Map<Seq<char>, Seq<char>> {
    map_of_pairs(kept_pairs(split_on(q, '&')))
}

/// Query parameters: the key/value pairs of one request's query string,
/// in the order they were parsed. Viewed as the mapping they denote.
pub struct QueryParams {
    pairs: Vec<(String, String)>,
}

/// The views of a pair list's entries.
pub open spec fn pairs_view(ps: Seq<(String, String)>) -> Seq<(Seq<char>, Seq<char>)> {
    ps.map_values(|p: (String, String)| (p.0@, p.1@))
}

impl View for QueryParams {
    type V = Map<Seq<char>, Seq<char>>;

    closed spec fn view(&self) -> Map<Seq<char>, Seq<char>> {
        map_of_pairs(pairs_view(self.pairs@))
    }
}

/// Splitting never yields fewer than one piece.
proof fn lemma_split_on_len(s: Seq<char>, sep: char)
    ensures
        split_on(s, sep).len() >= 1,
    decreases s.len(),
{
    if s.len() > 0 {
        lemma_split_on_len(s.drop_last(), sep);
    }
}

/// Splitting distributes over a separator: the pieces of
/// `q1 + sep + q2` are the pieces of `q1` followed by those of `q2`.
proof fn lemma_split_on_concat(q1: Seq<char>, q2: Seq<char>, sep: char)
    ensures
        split_on(q1 + seq![sep] + q2, sep) == split_on(q1, sep) + split_on(q2, sep),
    decreases q2.len(),
{
    let s = q1 + seq![sep] + q2;
    let a = split_on(q1, sep);
    if q2.len() == 0 {
        assert(s.drop_last() =~= q1);
        assert(s.last() == sep);
        assert(split_on(s, sep) == a.push(Seq::<char>::empty()));
        assert(split_on(q2, sep) == seq![Seq::<char>::empty()]);
        assert(a.push(Seq::<char>::empty()) =~= a + seq![Seq::<char>::empty()]);
    } else {
        assert(s.drop_last() =~= q1 + seq![sep] + q2.drop_last());
        assert(s.last() == q2.last());
        lemma_split_on_concat(q1, q2.drop_last(), sep);
        let b = split_on(q2.drop_last(), sep);
        lemma_split_on_len(q2.drop_last(), sep);
        if q2.last() == sep {
            assert(split_on(s, sep) == (a + b).push(Seq::<char>::empty()));
            assert(split_on(q2, sep) == b.push(Seq::<char>::empty()));
            assert((a + b).push(Seq::<char>::empty()) =~= a + b.push(Seq::<char>::empty()));
        } else {
            let p = a + b;
            assert(p.last() == b.last());
            assert(split_on(s, sep) == p.update(p.len() - 1, p.last().push(q2.last())));
            assert(split_on(q2, sep) == b.update(b.len() - 1, b.last().push(q2.last())));
            assert(p.update(p.len() - 1, p.last().push(q2.last())) =~= a + b.update(
                b.len() - 1,
                b.last().push(q2.last()),
            ));
        }
    }
}

/// Kept pairs distribute over piece concatenation.
proof fn lemma_kept_pairs_concat(ps1: Seq<Seq<char>>, ps2: Seq<Seq<char>>)
    ensures
        kept_pairs(ps1 + ps2) == kept_pairs(ps1) + kept_pairs(ps2),
    decreases ps2.len(),
{
    if ps2.len() == 0 {
        assert(ps1 + ps2 =~= ps1);
        assert(kept_pairs(ps2) =~= Seq::<(Seq<char>, Seq<char>)>::empty());
        assert(kept_pairs(ps1) + kept_pairs(ps2) =~= kept_pairs(ps1));
    } else {
        assert((ps1 + ps2).drop_last() =~= ps1 + ps2.drop_last());
        assert((ps1 + ps2).last() == ps2.last());
        lemma_kept_pairs_concat(ps1, ps2.drop_last());
        let a = kept_pairs(ps1);
        let b = kept_pairs(ps2.drop_last());
        let p = ps2.last();
        if key_of(p).len() == 0 {
            assert(kept_pairs(ps1 + ps2) == a + b);
            assert(kept_pairs(ps2) == b);
        } else {
            assert(kept_pairs(ps1 + ps2) == (a + b).push((key_of(p), val_of(p))));
            assert(kept_pairs(ps2) == b.push((key_of(p), val_of(p))));
            assert((a + b).push((key_of(p), val_of(p))) =~= a + b.push((key_of(p), val_of(p))));
        }
    }
}

/// Folding pairs into a mapping distributes over concatenation, with
/// the later pairs winning.
proof fn lemma_map_of_pairs_concat(ks1: Seq<(Seq<char>, Seq<char>)>, ks2: Seq<(Seq<char>, Seq<char>)>)
    ensures
        map_of_pairs(ks1 + ks2) == map_of_pairs(ks1).union_prefer_right(map_of_pairs(ks2)),
    decreases ks2.len(),
{
    if ks2.len() == 0 {
        assert(ks1 + ks2 =~= ks1);
        assert(map_of_pairs(ks2) =~= Map::<Seq<char>, Seq<char>>::empty());
        assert(map_of_pairs(ks1).union_prefer_right(map_of_pairs(ks2)) =~= map_of_pairs(ks1));
    } else {
        assert((ks1 + ks2).drop_last() =~= ks1 + ks2.drop_last());
        assert((ks1 + ks2).last() == ks2.last());
        lemma_map_of_pairs_concat(ks1, ks2.drop_last());
        let m1 = map_of_pairs(ks1);
        let m2 = map_of_pairs(ks2.drop_last());
        let (k, v) = ks2.last();
        assert(map_of_pairs(ks1 + ks2) == m1.union_prefer_right(m2).insert(k, v));
        assert(map_of_pairs(ks2) == m2.insert(k, v));
        assert(m1.union_prefer_right(m2).insert(k, v) =~= m1.union_prefer_right(m2.insert(k, v)));
    }
}

/// Splitting a query string at a literal `&` splits the parse: the
/// right-hand parameters are added to the left-hand ones and win every
/// collision. In particular, when a key repeats, its last occurrence
/// is the one kept.
pub proof fn lemma_parse_query_concat(q1: Seq<char>, q2: Seq<char>)
    ensures
        parse_query_spec(q1 + seq!['&'] + q2) == parse_query_spec(q1).union_prefer_right(
            parse_query_spec(q2),
        ),
{
    lemma_split_on_concat(q1, q2, '&');
    lemma_kept_pairs_concat(split_on(q1, '&'), split_on(q2, '&'));
    lemma_map_of_pairs_concat(kept_pairs(split_on(q1, '&')), kept_pairs(split_on(q2, '&')));
}

/// When a key occurs on both sides of a literal `&`, the parse keeps
/// the value of its last occurrence.
pub proof fn lemma_last_occurrence_wins(q1: Seq<char>, q2: Seq<char>, k: Seq<char>)
    requires
        parse_query_spec(q2).contains_key(k),
    ensures
        parse_query_spec(q1 + seq!['&'] + q2).contains_key(k),
        parse_query_spec(q1 + seq!['&'] + q2)[k] == parse_query_spec(q2)[k],
{
    lemma_parse_query_concat(q1, q2);
}

/// A string without a separator is a single piece.
proof fn lemma_split_on_single(q: Seq<char>, sep: char)
    requires
        forall|k: int| 0 <= k < q.len() ==> q[k] != sep,
    ensures
        split_on(q, sep) == seq![q],
    decreases q.len(),
{
    if q.len() == 0 {
        assert(q =~= Seq::<char>::empty());
        assert(seq![Seq::<char>::empty()] =~= seq![q]);
    } else {
        lemma_split_on_single(q.drop_last(), sep);
        assert(q.last() != sep);
        let parts = split_on(q.drop_last(), sep);
        assert(parts == seq![q.drop_last()]);
        assert(q.drop_last().push(q.last()) =~= q);
        assert(parts.update(parts.len() - 1, parts.last().push(q.last())) =~= seq![q]);
    }
}

/// A query string without `&` parses to at most one entry: none when
/// its key is empty, else the single key/value pair it denotes.
pub proof fn lemma_parse_single_pair(q: Seq<char>)
    requires
        forall|k: int| 0 <= k < q.len() ==> q[k] != '&',
    ensures
        parse_query_spec(q) == if key_of(q).len() == 0 {
            Map::<Seq<char>, Seq<char>>::empty()
        } else {
            Map::<Seq<char>, Seq<char>>::empty().insert(key_of(q), val_of(q))
        },
{
    lemma_split_on_single(q, '&');
    let ps = seq![q];
    assert(ps.drop_last() =~= Seq::<Seq<char>>::empty());
    assert(kept_pairs(Seq::<Seq<char>>::empty()) == Seq::<(Seq<char>, Seq<char>)>::empty());
    assert(map_of_pairs(Seq::<(Seq<char>, Seq<char>)>::empty()) == Map::<Seq<char>, Seq<char>>::empty());
    if key_of(q).len() == 0 {
        assert(kept_pairs(ps) == Seq::<(Seq<char>, Seq<char>)>::empty());
    } else {
        let ks = kept_pairs(ps);
        assert(ks == Seq::<(Seq<char>, Seq<char>)>::empty().push((key_of(q), val_of(q))));
        assert(ks.drop_last() =~= Seq::<(Seq<char>, Seq<char>)>::empty());
        assert(map_of_pairs(ks) == Map::<Seq<char>, Seq<char>>::empty().insert(
            key_of(q),
            val_of(q),
        ));
    }
}

/// A pair without `=` keeps its whole text as the key and gets the
/// empty string as its value.
pub proof fn lemma_pair_without_eq(p: Seq<char>)
    requires
        forall|k: int| 0 <= k < p.len() ==> p[k] != '=',
    ensures
        key_of(p) == p,
        val_of(p) == Seq::<char>::empty(),
    decreases p.len(),
{
    if p.len() == 0 {
        assert(key_of(p) =~= p);
    } else {
        assert(p.first() != '=');
        let rest = p.drop_first();
        assert(forall|k: int| 0 <= k < rest.len() ==> rest[k] == p[k + 1] && rest[k] != '=');
        lemma_pair_without_eq(rest);
        assert(seq![p.first()] + rest =~= p);
    }
}

/// The keys that the kept pairs carry are never empty.
proof fn lemma_kept_pairs_keys(ps: Seq<Seq<char>>)
    ensures
        forall|i: int|
            0 <= i < kept_pairs(ps).len() ==> #[trigger] kept_pairs(ps)[i].0.len() > 0,
    decreases ps.len(),
{
    if ps.len() == 0 {
        assert(kept_pairs(ps).len() == 0);
    } else {
        lemma_kept_pairs_keys(ps.drop_last());
        let rest = kept_pairs(ps.drop_last());
        let p = ps.last();
        assert forall|i: int|
            0 <= i < kept_pairs(ps).len() implies #[trigger] kept_pairs(ps)[i].0.len() > 0 by {
            if i < rest.len() {
                assert(kept_pairs(ps)[i] == rest[i]);
            } else {
                assert(key_of(p).len() > 0);
                assert(kept_pairs(ps)[i] == (key_of(p), val_of(p)));
            }
        }
    }
}

/// Folding pairs with non-empty keys yields a mapping whose keys are
/// all non-empty.
proof fn lemma_map_of_pairs_keys(ks: Seq<(Seq<char>, Seq<char>)>)
    requires
        forall|i: int| 0 <= i < ks.len() ==> #[trigger] ks[i].0.len() > 0,
    ensures
        forall|k: Seq<char>| #[trigger] map_of_pairs(ks).contains_key(k) ==> k.len() > 0,
    decreases ks.len(),
{
    if ks.len() > 0 {
        assert(forall|i: int|
            0 <= i < ks.drop_last().len() ==> #[trigger] ks.drop_last()[i].0.len() > 0);
        lemma_map_of_pairs_keys(ks.drop_last());
        assert(ks.last().0.len() > 0);
        assert forall|k: Seq<char>| #[trigger] map_of_pairs(ks).contains_key(k) implies k.len()
            > 0 by {
            if k != ks.last().0 {
                assert(map_of_pairs(ks.drop_last()).contains_key(k));
            }
        }
    }
}

/// Every key of a parsed query string is non-empty: a pair whose key
/// is empty is dropped.
pub proof fn lemma_parse_keys_nonempty(q: Seq<char>)
    ensures
        forall|k: Seq<char>| #[trigger] parse_query_spec(q).contains_key(k) ==> k.len() > 0,
{
    lemma_kept_pairs_keys(split_on(q, '&'));
    lemma_map_of_pairs_keys(kept_pairs(split_on(q, '&')));
}

/// When the first `j` characters of `p` are not `=` and character `j`
/// (if any) is, the key and value of `p` are the pieces on either side
/// of position `j`.
proof fn lemma_split_eq_at(p: Seq<char>, j: int)
    requires
        0 <= j <= p.len(),
        forall|k: int| 0 <= k < j ==> p[k] != '=',
        j < p.len() ==> p[j] == '=',
    ensures
        key_of(p) == p.subrange(0, j),
        val_of(p) == if j < p.len() {
            p.subrange(j + 1, p.len() as int)
        } else {
            Seq::<char>::empty()
        },
    decreases j,
{
    if j == 0 {
        assert(key_of(p) =~= p.subrange(0, 0));
        if p.len() > 0 {
            assert(p.first() == '=');
        }
    } else {
        assert(p[0] != '=');
        let rest = p.drop_first();
        assert(forall|k: int| 0 <= k < j - 1 ==> rest[k] == p[k + 1] && rest[k] != '=');
        lemma_split_eq_at(rest, j - 1);
        assert(key_of(p) == seq![p.first()] + key_of(rest));
        assert(seq![p.first()] + rest.subrange(0, j - 1) =~= p.subrange(0, j));
        if j < p.len() {
            assert(rest.subrange(j, rest.len() as int) =~= p.subrange(j + 1, p.len() as int));
        }
    }
}

/// Split one `&`-delimited piece into its key and value at the first
/// `=`, taking the whole piece as key and the empty string as value
/// when it has none.
fn split_pair(piece: &str) -> (kv: (String, String))
    ensures
        kv.0@ == key_of(piece@),
        kv.1@ == val_of(piece@),
{
    let n: usize = piece.unicode_len();
    let mut j: usize = 0;
    while j < n
        invariant
            0 <= j <= n,
            n == piece@.len(),
            forall|k: int| 0 <= k < j ==> piece@[k] != '=',
        decreases n - j,
    {
        if piece.get_char(j) == '=' {
            let key = piece.substring_char(0, j);
            let val = piece.substring_char(j + 1, n);
            proof {
                lemma_split_eq_at(piece@, j as int);
            }
            return (key.to_owned(), val.to_owned());
        }
        j = j + 1;
    }
    proof {
        lemma_split_eq_at(piece@, n as int);
    }
    (piece.to_owned(), String::new())
}

/// Parse a raw query string into its query parameters.
pub fn parse_query(query_str: &str) -> (r: QueryParams)
    ensures
        r@ == parse_query_spec(query_str@),
{
    let n: usize = query_str.unicode_len();
    let mut pairs: Vec<(String, String)> = Vec::new();
    let mut start: usize = 0;
    let mut i: usize = 0;
    proof {
        assert(query_str@.take(0) =~= Seq::<char>::empty());
        assert(split_on(query_str@.take(0), '&') =~= seq![Seq::<char>::empty()]);
        assert(split_on(query_str@.take(0), '&').drop_last() =~= Seq::<Seq<char>>::empty());
        assert(pairs_view(pairs@) =~= Seq::<(Seq<char>, Seq<char>)>::empty());
        assert(query_str@.subrange(0, 0) =~= Seq::<char>::empty());
    }
    while i < n
        invariant
            0 <= start <= i <= n,
            n == query_str@.len(),
            split_on(query_str@.take(i as int), '&').len() >= 1,
            pairs_view(pairs@) == kept_pairs(
                split_on(query_str@.take(i as int), '&').drop_last(),
            ),
            split_on(query_str@.take(i as int), '&').last() == query_str@.subrange(
                start as int,
                i as int,
            ),
        decreases n - i,
    {
        let ghost pre = split_on(query_str@.take(i as int), '&');
        let ghost t = query_str@.take(i + 1);
        proof {
            assert(t.drop_last() =~= query_str@.take(i as int));
            assert(t.last() == query_str@[i as int]);
        }
        let c = query_str.get_char(i);
        if c == '&' {
            let piece = query_str.substring_char(start, i);
            let (key, val) = split_pair(piece);
            proof {
                assert(split_on(t, '&') == pre.push(Seq::<char>::empty()));
                assert(pre.push(Seq::<char>::empty()).drop_last() =~= pre);
                assert(pre.drop_last().push(pre.last()) =~= pre);
                assert(kept_pairs(pre) == if key_of(pre.last()).len() == 0 {
                    kept_pairs(pre.drop_last())
                } else {
                    kept_pairs(pre.drop_last()).push((key_of(pre.last()), val_of(pre.last())))
                });
            }
            if !key.as_str().is_empty() {
                let ghost old_pairs = pairs@;
                pairs.push((key, val));
                proof {
                    assert(pairs_view(pairs@) =~= pairs_view(old_pairs).push(
                        (pairs@.last().0@, pairs@.last().1@),
                    ));
                }
            }
            start = i + 1;
            proof {
                assert(query_str@.subrange(start as int, i + 1) =~= Seq::<char>::empty());
            }
        } else {
            proof {
                assert(split_on(t, '&') == pre.update(pre.len() - 1, pre.last().push(t.last())));
                assert(pre.update(pre.len() - 1, pre.last().push(t.last())).drop_last()
                    =~= pre.drop_last());
                assert(query_str@.subrange(start as int, i as int).push(query_str@[i as int])
                    =~= query_str@.subrange(start as int, i + 1));
            }
        }
        i = i + 1;
    }
    let piece = query_str.substring_char(start, n);
    let (key, val) = split_pair(piece);
    let ghost full = split_on(query_str@, '&');
    proof {
        assert(query_str@.take(n as int) =~= query_str@);
        assert(kept_pairs(full) == if key_of(full.last()).len() == 0 {
            kept_pairs(full.drop_last())
        } else {
            kept_pairs(full.drop_last()).push((key_of(full.last()), val_of(full.last())))
        });
    }
    if !key.as_str().is_empty() {
        let ghost old_pairs = pairs@;
        pairs.push((key, val));
        proof {
            assert(pairs_view(pairs@) =~= pairs_view(old_pairs).push(
                (pairs@.last().0@, pairs@.last().1@),
            ));
        }
    }
    QueryParams { pairs }
}

impl QueryParams {
    /// Look up the last value parsed for `key`, if any.
    pub fn get(&self, key: &str) -> (r: Option<String>)
        ensures
            match r {
                Some(v) => self@.contains_key(key@) && v@ == self@[key@],
                None => !self@.contains_key(key@),
            },
    {
        let mut i: usize = self.pairs.len();
        proof {
            assert(self.pairs@.take(i as int) =~= self.pairs@);
        }
        while i > 0
            invariant
                0 <= i <= self.pairs@.len(),
                self@.contains_key(key@) == map_of_pairs(
                    pairs_view(self.pairs@.take(i as int)),
                ).contains_key(key@),
                self@.contains_key(key@) ==> self@[key@] == map_of_pairs(
                    pairs_view(self.pairs@.take(i as int)),
                )[key@],
            decreases i,
        {
            i = i - 1;
            let p = &self.pairs[i];
            let ghost v = pairs_view(self.pairs@.take(i + 1));
            proof {
                assert(v.drop_last() =~= pairs_view(self.pairs@.take(i as int)));
                assert(v.last() == (self.pairs@[i as int].0@, self.pairs@[i as int].1@));
            }
            if crate::text::str_eq(p.0.as_str(), key) {
                return Some(p.1.clone());
            }
        }
        proof {
            assert(self.pairs@.take(0) =~= Seq::<(String, String)>::empty());
            assert(pairs_view(self.pairs@.take(0)) =~= Seq::<(Seq<char>, Seq<char>)>::empty());
        }
        None
    }
}

} // verus!
