//! Stepping through what a search of a pane's history has found.

use crate::app::{Search, SearchModel};
use crate::text::{decimal, push_decimal};
use vstd::prelude::*;

verus! {

impl SearchModel {
    /// The search with new hits, at the first of them.
    pub open spec fn with_hits(self, hits: Seq<(usize, u16)>) -> SearchModel {
        SearchModel { hits, index: 0, ..self }
    }

    /// The search at the next hit; after the last comes the first.
    pub open spec fn next(self) -> SearchModel {
        if self.hits.len() == 0 {
            self
        } else {
            SearchModel { index: ((self.index + 1) % (self.hits.len() as int)) as usize, ..self }
        }
    }

    /// How far back the line of the current hit is.
    pub open spec fn offset(self) -> Option<usize> {
        if self.index < self.hits.len() {
            Some(self.hits[self.index as int].0)
        } else {
            None
        }
    }

    /// Which hit is the current one, and how many there are.
    pub open spec fn position(self) -> Seq<char> {
        decimal(
            if self.hits.len() == 0 {
                0
            } else {
                (self.index + 1) as nat
            },
        ) + " / "@ + decimal(self.hits.len())
    }
}

impl Search {
    /// How far back the line of the current hit is.
    fn offset(&self) -> (out: Option<usize>)
        ensures
            out == self@.offset(),
    {
        if self.index < self.hits.len() {
            Some(self.hits[self.index].0)
        } else {
            None
        }
    }

    /// Takes over what a search has found. Gives how far back the first hit is.
    pub fn found(&mut self, hits: Vec<(usize, u16)>) -> (out: Option<usize>)
        ensures
            final(self)@ == old(self)@.with_hits(hits@),
            out == final(self)@.offset(),
    {
        self.hits = hits;
        self.index = 0;
        assert(self@ =~= old(self)@.with_hits(hits@));
        self.offset()
    }

    /// Goes to the next hit. Gives how far back it is.
    pub fn next(&mut self) -> (out: Option<usize>)
        ensures
            final(self)@ == old(self)@.next(),
            out == final(self)@.offset(),
    {
        let n: usize = self.hits.len();
        if n > 0 {
            let index: usize = self.index;
            self.index = if index < n {
                if index + 1 == n {
                    0
                } else {
                    index + 1
                }
            } else {
                ((index as u128 + 1) % (n as u128)) as usize
            };
            proof {
                if index + 1 < n {
                    vstd::arithmetic::div_mod::lemma_small_mod((index + 1) as nat, n as nat);
                } else if index + 1 == n {
                    vstd::arithmetic::div_mod::lemma_mod_self_0(n as int);
                } else {
                    vstd::arithmetic::div_mod::lemma_mod_bound(index + 1, n as int);
                }
            }
        }
        assert(self@ =~= old(self)@.next());
        self.offset()
    }

    /// Which hit is the current one, and how many there are.
    pub fn position(&self) -> (out: String)
        requires
            self.index < usize::MAX,
        ensures
            out@ == self@.position(),
    {
        let n: usize = self.hits.len();
        let mut out = String::new();
        push_decimal(
            &mut out,
            if n == 0 {
                0
            } else {
                self.index as u64 + 1
            },
        );
        out.append(" / ");
        push_decimal(&mut out, n as u64);
        assert(out@ =~= self@.position());
        out
    }
}

/// Going on from hit to hit comes back to the first after the last, and always
/// stands at a hit.
pub proof fn law_the_hits_go_round(s: SearchModel)
    requires
        0 < s.hits.len() <= usize::MAX,
        s.index < s.hits.len(),
    ensures
        s.next().index < s.hits.len(),
        s.next().offset() is Some,
        s.next().index == (if s.index + 1 == s.hits.len() {
            0
        } else {
            s.index + 1
        }),
{
    let n = s.hits.len() as int;
    if s.index + 1 < n {
        vstd::arithmetic::div_mod::lemma_small_mod((s.index + 1) as nat, n as nat);
    } else {
        vstd::arithmetic::div_mod::lemma_mod_self_0(n);
    }
}

/// A search starts at its first hit, and where there is none it shows no line
/// and stays where it is.
pub proof fn law_a_search_starts_at_its_first_hit(s: SearchModel, hits: Seq<(usize, u16)>)
    ensures
        s.with_hits(hits) == (SearchModel { hits, index: 0, ..s }),
        hits.len() > 0 ==> s.with_hits(hits).offset() == Some(hits[0].0),
        hits.len() == 0 ==> s.with_hits(hits).offset() is None,
        s.hits.len() == 0 ==> s.next() == s,
        s.next().hits == s.hits,
        s.next().open == s.open,
        s.next().focus == s.focus,
{
}

/// The line that is shown is that of the current hit. The hits are counted from
/// one, and none is hit number zero of none.
pub proof fn law_the_current_hit_is_shown(s: SearchModel)
    ensures
        s.index < s.hits.len() ==> s.offset() == Some(s.hits[s.index as int].0),
        s.index >= s.hits.len() ==> s.offset() is None,
        s.hits.len() > 0 ==> s.position() == decimal((s.index + 1) as nat) + seq![' ', '/', ' ']
            + decimal(s.hits.len()),
        s.hits.len() == 0 ==> s.position() == decimal(0) + seq![' ', '/', ' '] + decimal(0),
{
    reveal_strlit(" / ");
    assert(" / "@ =~= seq![' ', '/', ' ']);
}

} // verus!
