//! The `/` fuzzy switcher: one list of every channel, group and DM, filtered
//! as you type.
use std::collections::HashMap;

use vstd::prelude::*;

use crate::model::{ConvId, Conversation};
use crate::order::{
    ordered, ordered_contains, ordered_is_sorted_permutation, sort, what_is_in_order_stays, Ranked,
};
use crate::text::chars_of;

verus! {

/// The lowercase form of a character, which may be several.
pub uninterp spec fn lowercase(c: char) -> Seq<char>;

/// [`char::to_lowercase`], which depends on the character alone and gives at
/// least one character.
#[verifier::external_body]
fn to_lowercase(c: char) -> (r: Vec<char>)
    ensures
        r@ == lowercase(c),
        r@.len() > 0,
{
    c.to_lowercase().collect()
}

/// A text in lowercase, character by character.
pub open spec fn lowered(s: Seq<char>) -> Seq<char>
    decreases s.len(),
{
    if s.len() == 0 {
        seq![]
    } else {
        lowered(s.drop_last()) + lowercase(s.last())
    }
}

fn lower(text: &str) -> (r: Vec<char>)
    ensures
        r@ == lowered(text@),
{
    let chars = chars_of(text);
    let mut out: Vec<char> = Vec::new();
    let mut i: usize = 0;
    while i < chars.len()
        invariant
            i <= chars.len(),
            chars@ == text@,
            out@ == lowered(chars@.take(i as int)),
        decreases chars.len() - i,
    {
        let mut more = to_lowercase(chars[i]);
        proof {
            assert(chars@.take(i + 1).drop_last() == chars@.take(i as int));
            assert(chars@.take(i + 1).last() == chars@[i as int]);
        }
        out.append(&mut more);
        i += 1;
    }
    assert(chars@.take(i as int) == chars@);
    out
}

/// What each character of a text starts with in lowercase.
pub open spec fn heads_of(s: Seq<char>) -> Seq<char> {
    s.map_values(|c: char| lowercase(c)[0])
}

fn heads(hay: &Vec<char>) -> (r: Vec<char>)
    ensures
        r@ == heads_of(hay@),
{
    let mut out: Vec<char> = Vec::new();
    while out.len() < hay.len()
        invariant
            out.len() <= hay.len(),
            out@ == heads_of(hay@).take(out@.len() as int),
        decreases hay.len() - out.len(),
    {
        let low = to_lowercase(hay[out.len()]);
        out.push(low[0]);
        assert(out@ =~= heads_of(hay@).take(out@.len() as int));
    }
    assert(heads_of(hay@).take(out@.len() as int) =~= heads_of(hay@));
    out
}

/// The first place from `at` on where `want` stands; the end if there is none.
pub open spec fn landing(heads: Seq<char>, want: char, at: int) -> int
    decreases heads.len() - at,
{
    if at < 0 || at >= heads.len() || heads[at] == want {
        at
    } else {
        landing(heads, want, at + 1)
    }
}

/// Whether a word of a label starts at `hit`.
pub open spec fn at_boundary(hay: Seq<char>, hit: int) -> bool {
    hit == 0 || {
        let c = hay[hit - 1];
        c == '#' || c == '@' || c == '&' || c == '-' || c == '_' || c == ' ' || c == '.' || c
            == ','
    }
}

/// What a hit is worth: more in a run and at the start of a word, a little
/// less for every character that was skipped.
pub open spec fn points(hay: Seq<char>, hit: int, last: Option<int>) -> int {
    let run = if last == Some(hit - 1) {
        8int
    } else {
        0
    };
    let start = if at_boundary(hay, hit) {
        12int
    } else {
        0
    };
    let skipped = match last {
        Some(prev) => if hit - prev - 1 < 8 {
            hit - prev - 1
        } else {
            8
        },
        None => 0,
    };
    10 + run + start - skipped
}

/// Where the wanted characters land, one after the other.
pub open spec fn landings(hay: Seq<char>, wants: Seq<char>) -> Option<Seq<int>>
    decreases wants.len(),
{
    if wants.len() == 0 {
        Some(seq![])
    } else {
        match landings(hay, wants.drop_last()) {
            Some(before) => {
                let at = if before.len() == 0 {
                    0
                } else {
                    before.last() + 1
                };
                let hit = landing(hay, wants.last(), at);
                if 0 <= hit < hay.len() {
                    Some(before.push(hit))
                } else {
                    None
                }
            },
            None => None,
        }
    }
}

/// What some hits are worth together.
pub open spec fn worth(hay: Seq<char>, hits: Seq<int>) -> int
    decreases hits.len(),
{
    if hits.len() == 0 {
        0
    } else {
        let before = hits.drop_last();
        let last = if before.len() == 0 {
            None
        } else {
            Some(before.last())
        };
        worth(hay, before) + points(hay, hits.last(), last)
    }
}

/// How well a label matches a query: nothing if not all of it is there, in
/// order. Shorter labels win ties: "#dev" should beat "#development".
pub open spec fn score_of(label: Seq<char>, query: Seq<char>) -> Option<int> {
    rank_of(label, heads_of(label), lowered(query))
}

/// How well a label whose characters start with `heads` in lowercase matches
/// the characters in `wants`.
pub open spec fn rank_of(label: Seq<char>, heads: Seq<char>, wants: Seq<char>) -> Option<int> {
    match landings(heads, wants) {
        Some(hits) => Some(worth(label, hits) - label.len() as int / 4),
        None => None,
    }
}

proof fn lemma_landings_none(hay: Seq<char>, wants: Seq<char>, i: int)
    requires
        0 <= i <= wants.len(),
        landings(hay, wants.take(i)) is None,
    ensures
        landings(hay, wants) is None,
    decreases wants.len() - i,
{
    if i < wants.len() {
        assert(wants.take(i + 1).drop_last() == wants.take(i));
        lemma_landings_none(hay, wants, i + 1);
    } else {
        assert(wants.take(i) == wants);
    }
}

/// The hits as positions.
pub open spec fn as_positions(hits: Seq<int>) -> Seq<usize> {
    hits.map_values(|h: int| h as usize)
}

fn find_landing(hay: &Vec<char>, want: char, from: usize) -> (r: usize)
    requires
        from <= hay.len(),
    ensures
        r == landing(hay@, want, from as int),
        from <= r <= hay.len(),
{
    let mut at: usize = from;
    while at < hay.len()
        invariant
            from <= at <= hay.len(),
            landing(hay@, want, at as int) == landing(hay@, want, from as int),
        decreases hay.len() - at,
    {
        if hay[at] == want {
            return at;
        }
        at += 1;
    }
    at
}

fn boundary(hay: &Vec<char>, hit: usize) -> (r: bool)
    requires
        hit < hay.len(),
    ensures
        r == at_boundary(hay@, hit as int),
{
    if hit == 0 {
        return true;
    }
    let c = hay[hit - 1];
    c == '#' || c == '@' || c == '&' || c == '-' || c == '_' || c == ' ' || c == '.' || c == ','
}

/// Subsequence match with bonuses for runs and for hitting the start of a word.
/// Returns the score and where the query characters landed.
pub fn score(haystack: &str, needle: &str) -> (r: Option<(i128, Vec<usize>)>)
    ensures
        match r {
            Some((score, positions)) => {
                let hits = landings(heads_of(haystack@), lowered(needle@));
                &&& score_of(haystack@, needle@) == Some(score as int)
                &&& hits is Some
                &&& positions@ == as_positions(hits->Some_0)
            },
            None => score_of(haystack@, needle@) is None,
        },
{
    let hay = chars_of(haystack);
    let low = heads(&hay);
    let wants = lower(needle);
    rank(&hay, &low, &wants)
}

/// Match a label whose characters start with `low` in lowercase against the
/// characters in `wants`.
pub fn rank(hay: &Vec<char>, low: &Vec<char>, wants: &Vec<char>) -> (r: Option<(i128, Vec<usize>)>)
    requires
        low.len() == hay.len(),
    ensures
        match r {
            Some((score, positions)) => {
                &&& rank_of(hay@, low@, wants@) == Some(score as int)
                &&& landings(low@, wants@) is Some
                &&& positions@ == as_positions(landings(low@, wants@)->Some_0)
            },
            None => rank_of(hay@, low@, wants@) is None,
        },
{
    let mut positions: Vec<usize> = Vec::new();
    let ghost mut hits: Seq<int> = seq![];
    let mut total: i128 = 0;
    let mut at: usize = 0;
    let mut last_hit: Option<usize> = None;
    let mut i: usize = 0;
    while i < wants.len()
        invariant
            i <= wants.len(),
            low.len() == hay.len(),
            landings(low@, wants@.take(i as int)) == Some(hits),
            hits.len() == i,
            positions@ == as_positions(hits),
            total == worth(hay@, hits),
            -30 * i <= total <= 30 * i,
            at <= hay.len(),
            at == if hits.len() == 0 {
                0
            } else {
                hits.last() + 1
            },
            match last_hit {
                Some(p) => hits.len() > 0 && hits.last() == p,
                None => hits.len() == 0,
            },
        decreases wants.len() - i,
    {
        let want = wants[i];
        proof {
            assert(wants@.take(i + 1).drop_last() == wants@.take(i as int));
            assert(wants@.take(i + 1).last() == want);
        }
        let hit = find_landing(low, want, at);
        if hit >= hay.len() {
            proof {
                lemma_landings_none(low@, wants@, i + 1);
            }
            return None;
        }
        let mut earned: i128 = 10;
        if let Some(prev) = last_hit {
            if prev == hit - 1 {
                earned += 8;  // consecutive
            }
        }
        if boundary(hay, hit) {
            earned += 12;
        }
        // Distance from the previous match costs a little.
        if let Some(prev) = last_hit {
            let skipped = hit - prev - 1;
            earned -= if skipped < 8 {
                skipped as i128
            } else {
                8
            };
        }
        proof {
            let more = hits.push(hit as int);
            assert(more.drop_last() == hits);
            assert(earned == points(
                hay@,
                hit as int,
                if hits.len() == 0 {
                    None
                } else {
                    Some(hits.last())
                },
            ));
            assert(as_positions(more) =~= as_positions(hits).push(hit));
            hits = more;
        }
        total += earned;
        positions.push(hit);
        last_hit = Some(hit);
        at = hit + 1;
        i += 1;
    }
    assert(wants@.take(i as int) == wants@);
    total -= (hay.len() / 4) as i128;
    Some((total, positions))
}

// ---------------------------------------------------------------------------
// the list
// ---------------------------------------------------------------------------

/// One entry: an index into the conversations, and the characters of its label
/// that the query matched.
#[derive(Debug)]
pub struct Match {
    pub index: usize,
    pub positions: Vec<usize>,
}

#[verifier::ext_equal]
pub ghost struct MatchData {
    pub index: usize,
    pub positions: Seq<usize>,
}

impl DeepView for Match {
    type V = MatchData;

    open spec fn deep_view(&self) -> MatchData {
        MatchData { index: self.index, positions: self.positions@ }
    }
}

#[derive(Debug)]
pub struct Scored {
    pub score: i128,
    pub entry: Match,
}

/// Best score first; ties keep sidebar order so the list is stable.
impl Ranked for Scored {
    open spec fn ranks(self, other: Self) -> bool {
        self.score > other.score || self.score == other.score && self.entry.index
            <= other.entry.index
    }

    proof fn ranks_total(a: Self, b: Self) {
    }

    proof fn ranks_transitive(a: Self, b: Self, c: Self) {
    }

    fn before(&self, other: &Self) -> (r: bool) {
        self.score > other.score || self.score == other.score && self.entry.index
            <= other.entry.index
    }
}

/// What the query makes of one label.
pub open spec fn rated(label: Seq<char>, query: Seq<char>) -> Option<int> {
    if query.len() == 0 {
        Some(0)
    } else {
        score_of(label, query)
    }
}

pub open spec fn marked(label: Seq<char>, query: Seq<char>) -> Seq<usize> {
    if query.len() == 0 {
        seq![]
    } else {
        as_positions(landings(heads_of(label), lowered(query))->Some_0)
    }
}

/// Whether `list` holds, in sidebar order, the entries among the first `n`
/// labels that match, with their scores.
pub open spec fn lists(list: Seq<Scored>, labels: Seq<Seq<char>>, query: Seq<char>, n: int) -> bool
    decreases n,
{
    if n <= 0 {
        list.len() == 0
    } else {
        match rated(labels[n - 1], query) {
            Some(score) => {
                &&& list.len() > 0
                &&& list.last().score == score
                &&& list.last().entry.index == n - 1
                &&& list.last().entry.positions@ == marked(labels[n - 1], query)
                &&& lists(list.drop_last(), labels, query, n - 1)
            },
            None => lists(list, labels, query, n - 1),
        }
    }
}

pub open spec fn entries(list: Seq<Scored>) -> Seq<MatchData> {
    list.map_values(|s: Scored| s.entry.deep_view())
}

/// Whether these are the entries that a query leaves, best first.
pub open spec fn filtered(
    labels: Seq<Seq<char>>,
    query: Seq<char>,
    matches: Seq<MatchData>,
) -> bool {
    exists|list: Seq<Scored>| #[trigger]
        lists(list, labels, query, labels.len() as int) && matches == entries(ordered(list))
}

#[derive(Debug)]
pub struct Switcher {
    pub query: String,
    pub matches: Vec<Match>,
    pub selected: usize,
}

#[verifier::ext_equal]
pub ghost struct SwitcherData {
    pub query: Seq<char>,
    pub matches: Seq<MatchData>,
    pub selected: usize,
}

impl View for Switcher {
    type V = SwitcherData;

    open spec fn view(&self) -> SwitcherData {
        SwitcherData {
            query: self.query@,
            matches: self.matches.deep_view(),
            selected: self.selected,
        }
    }
}

/// A selection that is on the list, or at the top of an empty one.
pub open spec fn clamped(selected: usize, count: nat) -> usize {
    if count == 0 {
        0
    } else if selected >= count {
        (count - 1) as usize
    } else {
        selected
    }
}

fn rate(labels: &Vec<String>, query: &str) -> (r: Vec<Scored>)
    ensures
        lists(r@, labels.deep_view(), query@, labels@.len() as int),
{
    let mut scored: Vec<Scored> = Vec::new();
    let ghost all = labels.deep_view();
    let mut index: usize = 0;
    while index < labels.len()
        invariant
            index <= labels.len(),
            all == labels.deep_view(),
            lists(scored@, all, query@, index as int),
        decreases labels.len() - index,
    {
        assert(all[index as int] == labels[index as int]@);
        let ghost before = scored@;
        if query.is_empty() {
            let row = Scored { score: 0, entry: Match { index, positions: Vec::new() } };
            scored.push(row);
            assert(scored@.drop_last() == before);
            assert(row.entry.positions@ =~= marked(all[index as int], query@));
        } else if let Some((score, positions)) = score(labels[index].as_str(), query) {
            let row = Scored { score, entry: Match { index, positions } };
            scored.push(row);
            assert(scored@.drop_last() == before);
        }
        index += 1;
    }
    scored
}

/// Labels as sequences of characters.
pub open spec fn texts_in(labels: Map<ConvId, String>) -> Map<ConvId, Seq<char>> {
    labels.map_values(|label: String| label@)
}

/// What the conversations are called, in sidebar order: nothing, for one without
/// a label.
pub open spec fn shown_labels(convs: Seq<Conversation>, labels: Map<ConvId, Seq<char>>) -> Seq<
    Seq<char>,
> {
    Seq::new(
        convs.len(),
        |i: int|
            if labels.contains_key(convs[i].id) {
                labels[convs[i].id]
            } else {
                seq![]
            },
    )
}

fn in_order(convs: &Vec<Conversation>, labels: &HashMap<ConvId, String>) -> (r: Vec<String>)
    ensures
        r.deep_view() == shown_labels(convs@, texts_in(labels@)),
{
    broadcast use vstd::std_specs::hash::group_hash_axioms;

    let mut out: Vec<String> = Vec::new();
    let ghost all = shown_labels(convs@, texts_in(labels@));
    assert(out.deep_view() =~= all.take(0));
    let mut i: usize = 0;
    while i < convs.len()
        invariant
            i <= convs.len(),
            all == shown_labels(convs@, texts_in(labels@)),
            out.deep_view() == all.take(i as int),
        decreases convs.len() - i,
    {
        let ghost before = out.deep_view();
        let label = match labels.get(&convs[i].id) {
            Some(label) => label.clone(),
            None => String::new(),
        };
        out.push(label);
        proof {
            assert(label@ =~= all[i as int]);
            assert(out.deep_view() =~= before.push(label@));
            assert(all.take(i + 1) =~= all.take(i as int).push(all[i as int]));
        }
        i += 1;
    }
    assert(all.take(i as int) =~= all);
    out
}

impl Switcher {
    /// A switcher over all conversations, with nothing typed yet.
    pub fn new(convs: &Vec<Conversation>, labels: &HashMap<ConvId, String>) -> (r: Switcher)
        ensures
            r@.query.len() == 0,
            r@.selected == 0,
            filtered(shown_labels(convs@, texts_in(labels@)), seq![], r@.matches),
    {
        let mut switcher = Switcher { query: String::new(), matches: Vec::new(), selected: 0 };
        assert(switcher@.query =~= seq![]);
        switcher.refilter(convs, labels);
        switcher
    }

    pub fn refilter(&mut self, convs: &Vec<Conversation>, labels: &HashMap<ConvId, String>)
        ensures
            final(self)@.query == old(self)@.query,
            filtered(
                shown_labels(convs@, texts_in(labels@)),
                old(self)@.query,
                final(self)@.matches,
            ),
            final(self)@.selected == clamped(old(self)@.selected, final(self)@.matches.len()),
    {
        let labels = in_order(convs, labels);
        let scored = rate(&labels, self.query.as_str());
        let ghost list = scored@;
        let best = sort(scored);
        let ghost top = best@;
        let mut matches: Vec<Match> = Vec::new();
        for s in it: best
            invariant
                it.seq() == top,
                matches.deep_view() == entries(top.take(it.index() as int)),
        {
            let ghost i = it.index() as int;
            let ghost before = matches.deep_view();
            matches.push(s.entry);
            proof {
                assert(top[i] == s);
                assert(matches.deep_view() =~= before.push(s.entry.deep_view()));
                assert(entries(top.take(i + 1)) =~= entries(top.take(i)).push(
                    top[i].entry.deep_view(),
                ));
            }
        }
        assert(top.take(top.len() as int) == top);
        self.matches = matches;
        assert(lists(list, labels.deep_view(), self.query@, labels.deep_view().len() as int));
        if self.matches.len() == 0 {
            self.selected = 0;
        } else if self.selected >= self.matches.len() {
            self.selected = self.matches.len() - 1;
        }
    }

    pub fn up(&mut self)
        ensures
            final(self)@ == (SwitcherData {
                selected: if old(self)@.selected > 0 {
                    (old(self)@.selected - 1) as usize
                } else {
                    0
                },
                ..old(self)@
            }),
    {
        self.selected = self.selected.saturating_sub(1);
    }

    pub fn down(&mut self)
        ensures
            final(self)@ == (SwitcherData {
                selected: if old(self)@.matches.len() == 0 {
                    old(self)@.selected
                } else if old(self)@.selected < old(self)@.matches.len() - 1 {
                    (old(self)@.selected + 1) as usize
                } else {
                    (old(self)@.matches.len() - 1) as usize
                },
                ..old(self)@
            }),
    {
        if self.matches.len() > 0 {
            if self.selected < self.matches.len() - 1 {
                self.selected += 1;
            } else {
                self.selected = self.matches.len() - 1;
            }
        }
    }

    /// The index of the conversation that is currently highlighted.
    pub fn selection(&self) -> (r: Option<usize>)
        ensures
            r == if self@.selected < self@.matches.len() {
                Some(self@.matches[self@.selected as int].index)
            } else {
                None
            },
    {
        if self.selected < self.matches.len() {
            assert(self@.matches[self.selected as int] == self.matches[self.selected as int].deep_view());
            Some(self.matches[self.selected].index)
        } else {
            None
        }
    }
}

// ---------------------------------------------------------------------------
// what a search finds
// ---------------------------------------------------------------------------

proof fn lemma_landing_hits(heads: Seq<char>, want: char, at: int)
    requires
        0 <= at,
        landing(heads, want, at) < heads.len(),
    ensures
        at <= landing(heads, want, at),
        heads[landing(heads, want, at)] == want,
    decreases heads.len() - at,
{
    if at < heads.len() && heads[at] != want {
        lemma_landing_hits(heads, want, at + 1);
    }
}

/// A match spells the query: its characters are found in the label, each one
/// after the one before it.
pub proof fn hits_spell_the_query(heads: Seq<char>, wants: Seq<char>)
    requires
        landings(heads, wants) is Some,
    ensures
        ({
            let hits = landings(heads, wants)->Some_0;
            &&& hits.len() == wants.len()
            &&& forall|i: int|
                0 <= i < hits.len() ==> 0 <= #[trigger] hits[i] < heads.len() && heads[hits[i]]
                    == wants[i]
            &&& forall|i: int, j: int|
                0 <= i < j < hits.len() ==> #[trigger] hits[i] < #[trigger] hits[j]
        }),
    decreases wants.len(),
{
    if wants.len() > 0 {
        hits_spell_the_query(heads, wants.drop_last());
        let before = landings(heads, wants.drop_last())->Some_0;
        let at = if before.len() == 0 {
            0
        } else {
            before.last() + 1
        };
        lemma_landing_hits(heads, wants.last(), at);
    }
}

proof fn lemma_listed(list: Seq<Scored>, labels: Seq<Seq<char>>, query: Seq<char>, n: int)
    requires
        0 <= n <= labels.len(),
        lists(list, labels, query, n),
    ensures
        forall|i: int|
            0 <= i < list.len() ==> (#[trigger] list[i]).entry.index < n && rated(
                labels[list[i].entry.index as int],
                query,
            ) == Some(list[i].score as int),
        forall|k: int|
            0 <= k < n && #[trigger] rated(labels[k], query) is Some ==> exists|i: int|
                0 <= i < list.len() && (#[trigger] list[i]).entry.index == k,
    decreases n,
{
    if n > 0 {
        match rated(labels[n - 1], query) {
            Some(score) => {
                let before = list.drop_last();
                lemma_listed(before, labels, query, n - 1);
                assert forall|i: int| 0 <= i < list.len() implies (#[trigger] list[i]).entry.index
                    < n && rated(labels[list[i].entry.index as int], query) == Some(
                    list[i].score as int,
                ) by {
                    if i < before.len() {
                        assert(list[i] == before[i]);
                    }
                }
                assert forall|k: int|
                    0 <= k < n && #[trigger] rated(labels[k], query) is Some implies exists|i: int|
                    0 <= i < list.len() && (#[trigger] list[i]).entry.index == k by {
                    if k == n - 1 {
                        assert(list[list.len() - 1].entry.index == k);
                    } else {
                        let i = choose|i: int|
                            0 <= i < before.len() && (#[trigger] before[i]).entry.index == k;
                        assert(list[i].entry.index == k);
                    }
                }
            },
            None => {
                lemma_listed(list, labels, query, n - 1);
            },
        }
    }
}

/// Exactly the labels that match are listed.
pub proof fn every_match_is_listed(
    labels: Seq<Seq<char>>,
    query: Seq<char>,
    matches: Seq<MatchData>,
    k: int,
)
    requires
        filtered(labels, query, matches),
        0 <= k < labels.len(),
    ensures
        rated(labels[k], query) is Some <==> exists|i: int|
            0 <= i < matches.len() && (#[trigger] matches[i]).index == k,
{
    let list = choose|list: Seq<Scored>| #[trigger]
        lists(list, labels, query, labels.len() as int) && matches == entries(ordered(list));
    lemma_listed(list, labels, query, labels.len() as int);
    if rated(labels[k], query) is Some {
        let i = choose|i: int| 0 <= i < list.len() && (#[trigger] list[i]).entry.index == k;
        assert(list.contains(list[i]));
        ordered_contains(list, list[i]);
        let j = choose|j: int| 0 <= j < ordered(list).len() && ordered(list)[j] == list[i];
        assert(matches[j].index == k);
    }
    if exists|i: int| 0 <= i < matches.len() && (#[trigger] matches[i]).index == k {
        let i = choose|i: int| 0 <= i < matches.len() && (#[trigger] matches[i]).index == k;
        assert(ordered(list).contains(ordered(list)[i]));
        ordered_contains(list, ordered(list)[i]);
        let j = choose|j: int| 0 <= j < list.len() && list[j] == ordered(list)[i];
        assert(list[j].entry.index == k);
    }
}

/// The best match comes first; ties keep sidebar order.
pub proof fn best_matches_come_first(
    labels: Seq<Seq<char>>,
    query: Seq<char>,
    matches: Seq<MatchData>,
    i: int,
    j: int,
)
    requires
        filtered(labels, query, matches),
        0 <= i < j < matches.len(),
    ensures
        ({
            let (a, b) = (matches[i].index, matches[j].index);
            &&& a < labels.len() && b < labels.len()
            &&& rated(labels[a as int], query) is Some && rated(labels[b as int], query) is Some
            &&& {
                let (better, worse) = (
                    rated(labels[a as int], query)->Some_0,
                    rated(labels[b as int], query)->Some_0,
                );
                better > worse || better == worse && a <= b
            }
        }),
{
    let list = choose|list: Seq<Scored>| #[trigger]
        lists(list, labels, query, labels.len() as int) && matches == entries(ordered(list));
    let sorted = ordered(list);
    lemma_listed(list, labels, query, labels.len() as int);
    ordered_is_sorted_permutation(list);
    assert(sorted.contains(sorted[i]) && sorted.contains(sorted[j]));
    ordered_contains(list, sorted[i]);
    ordered_contains(list, sorted[j]);
    let p = choose|p: int| 0 <= p < list.len() && list[p] == sorted[i];
    let q = choose|q: int| 0 <= q < list.len() && list[q] == sorted[j];
    assert(list[p].entry.index < labels.len());
    assert(list[q].entry.index < labels.len());
    assert(sorted[i].ranks(sorted[j]));
}

// ---------------------------------------------------------------------------
// which match is better
// ---------------------------------------------------------------------------

/// A hit is worth more right behind the last one than behind a gap, no less
/// behind a small gap than behind a large one, and more at the start of a word
/// than inside one. Every hit is worth something.
pub proof fn close_hits_and_word_starts_are_worth_more(
    hay: Seq<char>,
    other: Seq<char>,
    hit: int,
    near: int,
    far: int,
)
    requires
        0 <= far < near < hit,
    ensures
        points(hay, hit, Some(hit - 1)) > points(hay, hit, Some(near)) || near == hit - 1,
        points(hay, hit, Some(near)) >= points(hay, hit, Some(far)),
        points(hay, hit, Some(far)) > 0,
        points(hay, hit, None) > 0,
        at_boundary(hay, hit) && !at_boundary(other, hit) ==> points(hay, hit, Some(near)) > points(
            other,
            hit,
            Some(near),
        ) && points(hay, hit, None) > points(other, hit, None),
{
}

/// A word starts at the beginning of a label and behind its sign, a dash, an
/// underscore, a blank, a dot or a comma, and nowhere else.
pub proof fn words_start_behind_signs(hay: Seq<char>, i: int)
    requires
        0 <= i < hay.len(),
    ensures
        at_boundary(hay, 0),
        at_boundary(hay, i + 1) <==> seq!['#', '@', '&', '-', '_', ' ', '.', ','].contains(hay[i]),
{
    let signs = seq!['#', '@', '&', '-', '_', ' ', '.', ','];
    assert(signs[0] == '#' && signs[1] == '@' && signs[2] == '&' && signs[3] == '-' && signs[4]
        == '_' && signs[5] == ' ' && signs[6] == '.' && signs[7] == ',');
}

proof fn lemma_landing_longer(heads: Seq<char>, tail: Seq<char>, want: char, at: int)
    requires
        0 <= at <= heads.len(),
        landing(heads, want, at) < heads.len(),
    ensures
        landing(heads + tail, want, at) == landing(heads, want, at),
        at <= landing(heads, want, at),
    decreases heads.len() - at,
{
    if at < heads.len() {
        assert((heads + tail)[at] == heads[at]);
        if heads[at] != want {
            lemma_landing_longer(heads, tail, want, at + 1);
        }
    }
}

proof fn lemma_landings_longer(heads: Seq<char>, tail: Seq<char>, wants: Seq<char>)
    requires
        landings(heads, wants) is Some,
    ensures
        landings(heads + tail, wants) == landings(heads, wants),
        forall|i: int|
            0 <= i < landings(heads, wants)->Some_0.len() ==> 0 <= #[trigger] landings(
                heads,
                wants,
            )->Some_0[i] < heads.len(),
    decreases wants.len(),
{
    if wants.len() > 0 {
        let rest = wants.drop_last();
        lemma_landings_longer(heads, tail, rest);
        let before = landings(heads, rest)->Some_0;
        let at = if before.len() == 0 {
            0
        } else {
            before.last() + 1
        };
        if before.len() > 0 {
            assert(before[before.len() - 1] == before.last());
        }
        lemma_landing_longer(heads, tail, wants.last(), at);
    }
}

proof fn lemma_worth_longer(hay: Seq<char>, tail: Seq<char>, hits: Seq<int>)
    requires
        forall|i: int| 0 <= i < hits.len() ==> 0 <= #[trigger] hits[i] < hay.len(),
    ensures
        worth(hay + tail, hits) == worth(hay, hits),
    decreases hits.len(),
{
    if hits.len() > 0 {
        let before = hits.drop_last();
        assert forall|i: int| 0 <= i < before.len() implies 0 <= #[trigger] before[i]
            < hay.len() by {
            assert(before[i] == hits[i]);
        }
        lemma_worth_longer(hay, tail, before);
        let hit = hits.last();
        assert(0 <= hits[hits.len() - 1] < hay.len());
        if hit > 0 {
            assert((hay + tail)[hit - 1] == hay[hit - 1]);
        }
    }
}

/// Of two labels that match alike, the shorter one does not rank behind the
/// longer one, and ranks before it if it is shorter by four characters: a query
/// that matches `#dev` finds it before `#development`.
pub proof fn the_shorter_label_wins(
    label: Seq<char>,
    tail: Seq<char>,
    heads: Seq<char>,
    more: Seq<char>,
    wants: Seq<char>,
)
    requires
        heads.len() == label.len(),
        more.len() == tail.len(),
        rank_of(label, heads, wants) is Some,
    ensures
        rank_of(label + tail, heads + more, wants) is Some,
        rank_of(label + tail, heads + more, wants)->Some_0 <= rank_of(label, heads, wants)->Some_0,
        tail.len() >= 4 ==> rank_of(label + tail, heads + more, wants)->Some_0 < rank_of(
            label,
            heads,
            wants,
        )->Some_0,
{
    lemma_landings_longer(heads, more, wants);
    let hits = landings(heads, wants)->Some_0;
    lemma_worth_longer(label, tail, hits);
}

proof fn lemma_lists_all(list: Seq<Scored>, labels: Seq<Seq<char>>, n: int)
    requires
        0 <= n <= labels.len(),
        lists(list, labels, seq![], n),
    ensures
        list.len() == n,
        forall|i: int|
            0 <= i < n ==> (#[trigger] list[i]).score == 0 && list[i].entry.index == i
                && list[i].entry.positions@.len() == 0,
    decreases n,
{
    if n > 0 {
        let rest = list.drop_last();
        lemma_lists_all(rest, labels, n - 1);
        assert forall|i: int| 0 <= i < n implies (#[trigger] list[i]).score == 0
            && list[i].entry.index == i && list[i].entry.positions@.len() == 0 by {
            if i < n - 1 {
                assert(rest[i] == list[i]);
            }
        }
    }
}

/// With nothing typed every conversation is listed, in the order of the
/// sidebar, and nothing in it is highlighted.
pub proof fn an_empty_query_lists_everything(
    labels: Seq<Seq<char>>,
    matches: Seq<MatchData>,
    i: int,
)
    requires
        filtered(labels, seq![], matches),
        0 <= i < labels.len(),
    ensures
        matches.len() == labels.len(),
        matches[i].index == i,
        matches[i].positions.len() == 0,
{
    let list = choose|list: Seq<Scored>| #[trigger]
        lists(list, labels, seq![], labels.len() as int) && matches == entries(ordered(list));
    lemma_lists_all(list, labels, labels.len() as int);
    assert forall|a: int, b: int| 0 <= a <= b < list.len() implies (#[trigger] list[a]).ranks(
        #[trigger] list[b],
    ) by {}
    what_is_in_order_stays(list);
}

/// The first hit is worth 22 at the start of a word and 10 inside one; one
/// right behind another is worth 8 more, and one behind a gap loses one for
/// every character of it, up to 8.
pub proof fn hits_are_worth_what_they_are_worth(hay: Seq<char>, hit: int, gap: int)
    requires
        0 <= gap < hit,
    ensures
        at_boundary(hay, hit) ==> points(hay, hit, None) == 22,
        !at_boundary(hay, hit) ==> points(hay, hit, None) == 10,
        points(hay, hit, Some(hit - 1)) == points(hay, hit, None) + 8,
        0 < gap <= 8 ==> points(hay, hit, Some(hit - 1 - gap)) == points(hay, hit, None) - gap,
        gap > 8 ==> points(hay, hit, Some(hit - 1 - gap)) == points(hay, hit, None) - 8,
{
}

} // verus!
