//! Byte-pair merging.
use vstd::hash_map::StringHashMap;
use vstd::prelude::*;

use crate::text::{concat2, decimal, decimal_string, lemma_numeral_ends, same_str};

verus! {

/// The texts of a run of strings.
pub open spec fn texts(v: Seq<String>) -> Seq<Seq<char>> {
    v.map_values(|s: String| s@)
}

/// A key for a pair of strings: the length of the first, a colon, then both.
pub open spec fn pair_key(a: Seq<char>, b: Seq<char>) -> Seq<char> {
    decimal(a.len()) + ":"@ + a + b
}

/// Different pairs have different keys.
proof fn lemma_pair_key(a: Seq<char>, b: Seq<char>, c: Seq<char>, d: Seq<char>)
    requires
        pair_key(a, b) == pair_key(c, d),
    ensures
        a == c && b == d,
{
    reveal_strlit(":");
    let x = decimal(a.len());
    let k = pair_key(a, b);
    let l = pair_key(c, d);
    assert(k =~= x + (":"@ + a + b));
    assert(l =~= decimal(c.len()) + (":"@ + c + d));
    lemma_numeral_ends(a.len(), ":"@ + a + b, c.len(), ":"@ + c + d);
    let m = x.len() + 1;
    assert(a =~= k.subrange(m as int, (m + a.len()) as int));
    assert(c =~= l.subrange(m as int, (m + a.len()) as int));
    assert(b =~= k.subrange((m + a.len()) as int, k.len() as int));
    assert(d =~= l.subrange((m + a.len()) as int, l.len() as int));
}

/// The rank of each merge rule.
pub struct MergeTable {
    ranks: StringHashMap<usize>,
}

impl View for MergeTable {
    type V = Map<(Seq<char>, Seq<char>), usize>;

    closed spec fn view(&self) -> Map<(Seq<char>, Seq<char>), usize> {
        Map::new(
            |p: (Seq<char>, Seq<char>)| self.ranks@.contains_key(pair_key(p.0, p.1)),
            |p: (Seq<char>, Seq<char>)| self.ranks@[pair_key(p.0, p.1)],
        )
    }
}

fn key_of(a: &str, b: &str) -> (r: String)
    ensures
        r@ == pair_key(a@, b@),
{
    let mut out = decimal_string(a.unicode_len() as u64);
    out.append(":");
    out.append(a);
    out.append(b);
    out
}

impl MergeTable {
    pub fn new() -> (r: Self)
        ensures
            r@ == Map::<(Seq<char>, Seq<char>), usize>::empty(),
    {
        let r = MergeTable { ranks: StringHashMap::new() };
        assert(r@ =~= Map::<(Seq<char>, Seq<char>), usize>::empty());
        r
    }

    /// Gives the pair a rank, in place of one that it had.
    pub fn insert(&mut self, a: &str, b: &str, rank: usize)
        ensures
            final(self)@ == old(self)@.insert((a@, b@), rank),
    {
        let key = key_of(a, b);
        let ghost before = *self;
        self.ranks.insert(key, rank);
        proof {
            assert forall|p: (Seq<char>, Seq<char>)|
                pair_key(p.0, p.1) == pair_key(a@, b@) implies p == (a@, b@) by {
                lemma_pair_key(p.0, p.1, a@, b@);
            }
            assert(self@ =~= before@.insert((a@, b@), rank));
        }
    }

    pub fn get(&self, a: &str, b: &str) -> (r: Option<usize>)
        ensures
            match r {
                Some(k) => self@.contains_key((a@, b@)) && k == self@[(a@, b@)],
                None => !self@.contains_key((a@, b@)),
            },
    {
        let key = key_of(a, b);
        match self.ranks.get(key.as_str()) {
            Some(k) => Some(*k),
            None => None,
        }
    }
}

/// The rank of each rule of a list: its last place in the list.
pub open spec fn ranks_of(merges: Seq<(Seq<char>, Seq<char>)>) -> Map<
    (Seq<char>, Seq<char>),
    usize,
>
    decreases merges.len(),
{
    if merges.len() == 0 {
        Map::empty()
    } else {
        ranks_of(merges.drop_last()).insert(merges.last(), (merges.len() - 1) as usize)
    }
}

/// The rank of the pair at `i`, or `usize::MAX` where no rule merges it.
pub open spec fn rank_at(
    tokens: Seq<Seq<char>>,
    ranks: Map<(Seq<char>, Seq<char>), usize>,
    i: int,
) -> usize {
    if ranks.contains_key((tokens[i], tokens[i + 1])) {
        ranks[(tokens[i], tokens[i + 1])]
    } else {
        usize::MAX
    }
}

/// Among the first `n` pairs of neighbours, the first of lowest rank.
pub open spec fn best_of(
    tokens: Seq<Seq<char>>,
    ranks: Map<(Seq<char>, Seq<char>), usize>,
    n: nat,
) -> Option<int>
    decreases n,
{
    if n == 0 {
        None
    } else {
        let prev = best_of(tokens, ranks, (n - 1) as nat);
        let low = match prev {
            Some(j) => rank_at(tokens, ranks, j),
            None => usize::MAX,
        };
        if rank_at(tokens, ranks, n - 1) < low {
            Some(n - 1)
        } else {
            prev
        }
    }
}

/// The pair that is merged next.
pub open spec fn best_pair(
    tokens: Seq<Seq<char>>,
    ranks: Map<(Seq<char>, Seq<char>), usize>,
) -> Option<int> {
    if tokens.len() <= 1 {
        None
    } else {
        best_of(tokens, ranks, (tokens.len() - 1) as nat)
    }
}

/// The tokens from `i` on, with each `a` that a `b` follows joined to it, from left to right.
pub open spec fn join_from(tokens: Seq<Seq<char>>, a: Seq<char>, b: Seq<char>, i: int) -> Seq<
    Seq<char>,
>
    decreases tokens.len() - i,
{
    if i < 0 || i >= tokens.len() {
        Seq::empty()
    } else if i + 1 < tokens.len() && tokens[i] == a && tokens[i + 1] == b {
        seq![a + b] + join_from(tokens, a, b, i + 2)
    } else {
        seq![tokens[i]] + join_from(tokens, a, b, i + 1)
    }
}

/// Merges until no rule applies, each time everywhere for the rule of lowest rank.
pub open spec fn merge_tokens(
    tokens: Seq<Seq<char>>,
    ranks: Map<(Seq<char>, Seq<char>), usize>,
) -> Seq<Seq<char>>
    decreases tokens.len() via merge_tokens_decreases
{
    match best_pair(tokens, ranks) {
        None => tokens,
        Some(i) => merge_tokens(join_from(tokens, tokens[i], tokens[i + 1], 0), ranks),
    }
}

#[via_fn]
proof fn merge_tokens_decreases(
    tokens: Seq<Seq<char>>,
    ranks: Map<(Seq<char>, Seq<char>), usize>,
) {
    law_best_pair_has_lowest_rank(tokens, ranks);
    if let Some(i) = best_pair(tokens, ranks) {
        lemma_join_len(tokens, tokens[i], tokens[i + 1], 0);
        lemma_join_shrinks(tokens, tokens[i], tokens[i + 1], 0, i);
    }
}

/// The chosen pair has a rank, no pair has a lower one, and none before it the same.
pub proof fn law_best_pair_has_lowest_rank(
    tokens: Seq<Seq<char>>,
    ranks: Map<(Seq<char>, Seq<char>), usize>,
)
    ensures
        match best_pair(tokens, ranks) {
            Some(i) => 0 <= i < tokens.len() - 1 && rank_at(tokens, ranks, i) < usize::MAX
                && forall|j: int|
                0 <= j < tokens.len() - 1 ==> {
                    &&& rank_at(tokens, ranks, i) <= #[trigger] rank_at(tokens, ranks, j)
                    &&& j < i ==> rank_at(tokens, ranks, i) < rank_at(tokens, ranks, j)
                },
            None => forall|j: int|
                0 <= j < tokens.len() - 1 ==> #[trigger] rank_at(tokens, ranks, j) == usize::MAX,
        },
{
    if tokens.len() > 1 {
        lemma_best_of(tokens, ranks, (tokens.len() - 1) as nat);
    }
}

proof fn lemma_best_of(
    tokens: Seq<Seq<char>>,
    ranks: Map<(Seq<char>, Seq<char>), usize>,
    n: nat,
)
    ensures
        match best_of(tokens, ranks, n) {
            Some(i) => 0 <= i < n && rank_at(tokens, ranks, i) < usize::MAX && forall|j: int|
                0 <= j < n ==> {
                    &&& rank_at(tokens, ranks, i) <= #[trigger] rank_at(tokens, ranks, j)
                    &&& j < i ==> rank_at(tokens, ranks, i) < rank_at(tokens, ranks, j)
                },
            None => forall|j: int|
                0 <= j < n ==> #[trigger] rank_at(tokens, ranks, j) == usize::MAX,
        },
    decreases n,
{
    if n > 0 {
        lemma_best_of(tokens, ranks, (n - 1) as nat);
    }
}

proof fn lemma_join_len(tokens: Seq<Seq<char>>, a: Seq<char>, b: Seq<char>, i: int)
    requires
        0 <= i <= tokens.len(),
    ensures
        join_from(tokens, a, b, i).len() <= tokens.len() - i,
    decreases tokens.len() - i,
{
    if i < tokens.len() {
        if i + 1 < tokens.len() && tokens[i] == a && tokens[i + 1] == b {
            lemma_join_len(tokens, a, b, i + 2);
        } else {
            lemma_join_len(tokens, a, b, i + 1);
        }
    }
}

pub proof fn lemma_join_shrinks(tokens: Seq<Seq<char>>, a: Seq<char>, b: Seq<char>, i: int, k: int)
    requires
        0 <= i <= k < tokens.len() - 1,
        tokens[k] == a,
        tokens[k + 1] == b,
    ensures
        join_from(tokens, a, b, i).len() < tokens.len() - i,
    decreases tokens.len() - i,
{
    if tokens[i] == a && tokens[i + 1] == b {
        lemma_join_len(tokens, a, b, i + 2);
    } else {
        lemma_join_shrinks(tokens, a, b, i + 1, k);
    }
}

fn find_best(tokens: &Vec<String>, ranks: &MergeTable) -> (r: Option<usize>)
    ensures
        match r {
            Some(i) => best_pair(texts(tokens@), ranks@) == Some(i as int) && i + 1
                < tokens@.len(),
            None => best_pair(texts(tokens@), ranks@) is None,
        },
{
    if tokens.len() <= 1 {
        return None;
    }
    let ghost t = texts(tokens@);
    let mut best: Option<usize> = None;
    let mut best_rank: usize = usize::MAX;
    let mut i: usize = 0;
    while i < tokens.len() - 1
        invariant
            t == texts(tokens@),
            1 < tokens@.len(),
            i <= tokens@.len() - 1,
            match best {
                Some(j) => best_of(t, ranks@, i as nat) == Some(j as int) && j + 1 < tokens@.len()
                    && best_rank == rank_at(t, ranks@, j as int),
                None => best_of(t, ranks@, i as nat) is None && best_rank == usize::MAX,
            },
        decreases tokens@.len() - i,
    {
        assert(t[i as int] == tokens@[i as int]@ && t[i + 1] == tokens@[i + 1]@);
        if let Some(rank) = ranks.get(tokens[i].as_str(), tokens[i + 1].as_str()) {
            if rank < best_rank {
                best_rank = rank;
                best = Some(i);
            }
        }
        i += 1;
    }
    best
}

fn join_pairs(tokens: &Vec<String>, a: &str, b: &str) -> (r: Vec<String>)
    ensures
        texts(r@) == join_from(texts(tokens@), a@, b@, 0),
{
    let joined = concat2(a, b);
    let ghost t = texts(tokens@);
    let mut out: Vec<String> = Vec::new();
    let mut i: usize = 0;
    assert(texts(out@) + join_from(t, a@, b@, 0) =~= join_from(t, a@, b@, 0));
    while i < tokens.len()
        invariant
            t == texts(tokens@),
            joined@ == a@ + b@,
            i <= tokens@.len(),
            join_from(t, a@, b@, 0) == texts(out@) + join_from(t, a@, b@, i as int),
        decreases tokens@.len() - i,
    {
        let ghost done = texts(out@);
        let ghost was = i as int;
        assert(t[was] == tokens@[was]@);
        if i + 1 < tokens.len() && same_str(tokens[i].as_str(), a) && same_str(
            tokens[i + 1].as_str(),
            b,
        ) {
            assert(t[was + 1] == tokens@[was + 1]@);
            out.push(joined.clone());
            i += 2;
            assert(texts(out@) =~= done.push(a@ + b@));
        } else {
            out.push(tokens[i].clone());
            i += 1;
            assert(texts(out@) =~= done.push(t[was]));
        }
        assert(texts(out@) + join_from(t, a@, b@, i as int) =~= done + join_from(t, a@, b@, was));
    }
    assert(texts(out@) + Seq::<Seq<char>>::empty() =~= texts(out@));
    out
}

/// Merges until no rule applies.
pub fn merge_all(tokens: Vec<String>, ranks: &MergeTable) -> (r: Vec<String>)
    ensures
        texts(r@) == merge_tokens(texts(tokens@), ranks@),
{
    let mut current = tokens;
    let ghost whole = merge_tokens(texts(tokens@), ranks@);
    loop
        invariant
            merge_tokens(texts(current@), ranks@) == whole,
        ensures
            texts(current@) == whole,
        decreases current@.len(),
    {
        let ghost t = texts(current@);
        match find_best(&current, ranks) {
            None => {
                break;
            },
            Some(i) => {
                proof {
                    assert(t[i as int] == current@[i as int]@ && t[i + 1] == current@[i + 1]@);
                    law_best_pair_has_lowest_rank(t, ranks@);
                    lemma_join_shrinks(t, t[i as int], t[i + 1], 0, i as int);
                }
                let next = join_pairs(&current, current[i].as_str(), current[i + 1].as_str());
                assert(next@.len() == texts(next@).len());
                current = next;
            },
        }
    }
    current
}

/// Merging keeps the text: the tokens spell the same characters in the same order.
pub proof fn law_merging_keeps_the_text(
    tokens: Seq<Seq<char>>,
    ranks: Map<(Seq<char>, Seq<char>), usize>,
)
    ensures
        merge_tokens(tokens, ranks).flatten() == tokens.flatten(),
    decreases tokens.len(),
{
    law_best_pair_has_lowest_rank(tokens, ranks);
    if let Some(i) = best_pair(tokens, ranks) {
        let joined = join_from(tokens, tokens[i], tokens[i + 1], 0);
        lemma_join_shrinks(tokens, tokens[i], tokens[i + 1], 0, i);
        law_merging_keeps_the_text(joined, ranks);
        lemma_join_keeps_text(tokens, tokens[i], tokens[i + 1], 0);
        assert(tokens.skip(0) =~= tokens);
    }
}

proof fn lemma_join_keeps_text(tokens: Seq<Seq<char>>, a: Seq<char>, b: Seq<char>, i: int)
    requires
        0 <= i <= tokens.len(),
    ensures
        join_from(tokens, a, b, i).flatten() == tokens.skip(i).flatten(),
    decreases tokens.len() - i,
{
    reveal_with_fuel(Seq::flatten, 3);
    let rest = tokens.skip(i);
    if i < tokens.len() {
        assert(rest.drop_first() =~= tokens.skip(i + 1));
        assert(rest.first() == tokens[i]);
        if i + 1 < tokens.len() && tokens[i] == a && tokens[i + 1] == b {
            lemma_join_keeps_text(tokens, a, b, i + 2);
            let tail = join_from(tokens, a, b, i + 2);
            assert((seq![a + b] + tail).drop_first() =~= tail);
            assert(rest.drop_first().first() == tokens[i + 1]);
            assert(rest.drop_first().drop_first() =~= tokens.skip(i + 2));
            assert((a + b) + tail.flatten() =~= a + (b + tail.flatten()));
        } else {
            lemma_join_keeps_text(tokens, a, b, i + 1);
            let tail = join_from(tokens, a, b, i + 1);
            assert((seq![tokens[i]] + tail).drop_first() =~= tail);
        }
    } else {
        assert(rest =~= Seq::<Seq<char>>::empty());
    }
}

/// After merging no rule applies to any two neighbours.
pub proof fn law_merging_is_complete(
    tokens: Seq<Seq<char>>,
    ranks: Map<(Seq<char>, Seq<char>), usize>,
)
    ensures
        best_pair(merge_tokens(tokens, ranks), ranks) is None,
    decreases tokens.len(),
{
    law_best_pair_has_lowest_rank(tokens, ranks);
    if let Some(i) = best_pair(tokens, ranks) {
        lemma_join_shrinks(tokens, tokens[i], tokens[i + 1], 0, i);
        law_merging_is_complete(join_from(tokens, tokens[i], tokens[i + 1], 0), ranks);
    }
}

} // verus!
