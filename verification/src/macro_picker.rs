//! Macro picker: the floating list of configured Lua macros.
//!
//! With an empty query every macro is listed in configuration order; otherwise
//! the macros whose `"<name> <description>"` fuzzy-matches the query are
//! listed by descending score, equal scores keeping configuration order.

use vstd::prelude::*;
use vstd::string::StringExecFns;
use crate::text::{push_char, pop_char};
use crate::ranking::{Scored, RankKey, rank, is_ranked, keys_of, indices_of, distinct_indices, skim_score, fuzzy_match, next_index, prev_index};

verus! {

/// A configured macro.
#[derive(Clone, Debug)]
pub struct MacroConfig {
    /// Name shown in the list (and the name the server runs it by).
    pub name: String,
    /// One-line description.
    pub description: String,
}

/// The text a query is matched against: `"<name> <description>"`.
pub open spec fn macro_haystack(m: MacroConfig) -> Seq<char> {
    m.name@ + seq![' '] + m.description@
}

/// The candidates among the first `n` macros for a non-empty query: those
/// that match, with their score and position (use count and name play no
/// part).
pub open spec fn macro_entries_upto(macros: Seq<MacroConfig>, query: Seq<char>, n: int) -> Seq<RankKey>
    decreases n,
{
    if n <= 0 {
        Seq::empty()
    } else {
        let e = macro_entries_upto(macros, query, n - 1);
        match skim_score(macro_haystack(macros[n - 1]), query) {
            Some(score) => e.push(RankKey { score, freq: 0, name: Seq::empty(), index: (n - 1) as usize }),
            None => e,
        }
    }
}

/// There are no more candidates than macros.
pub proof fn lemma_macro_entries_len(macros: Seq<MacroConfig>, query: Seq<char>, n: int)
    requires
        0 <= n,
    ensures
        macro_entries_upto(macros, query, n).len() <= n,
    decreases n,
{
    if n > 0 {
        lemma_macro_entries_len(macros, query, n - 1);
    }
}

/// State of the macro picker.
pub struct MacroPicker {
    /// The configured macros.
    pub macros: Vec<MacroConfig>,
    /// The search query.
    pub query: String,
    /// Whether the panel is open.
    pub is_open: bool,
    /// Selected position in the filtered list.
    pub selected: usize,
}

impl MacroPicker {
    /// The filtered list as positions in the macro list: every position in
    /// order for the empty query, the matching macros by descending score
    /// otherwise.
    pub open spec fn is_filtered_order(&self, order: Seq<usize>) -> bool {
        if self.query@.len() == 0 {
            order.len() == self.macros@.len() && forall|i: int| 0 <= i < order.len() ==> order[i] == i
        } else {
            exists|sorted: Seq<RankKey>|
                #[trigger] is_ranked(sorted) && sorted.to_multiset() == macro_entries_upto(
                    self.macros@,
                    self.query@,
                    self.macros@.len() as int,
                ).to_multiset() && order == indices_of(sorted)
        }
    }

    /// The number of macros the filtered list holds.
    pub open spec fn filtered_len(&self) -> nat {
        if self.query@.len() == 0 {
            self.macros@.len()
        } else {
            macro_entries_upto(self.macros@, self.query@, self.macros@.len() as int).len()
        }
    }

    /// A closed picker over `macros`.
    pub fn new(macros: Vec<MacroConfig>) -> (p: Self)
        ensures
            p.macros@ == macros@,
            p.query@.len() == 0,
            !p.is_open,
            p.selected == 0,
    {
        MacroPicker { macros, query: String::new(), is_open: false, selected: 0 }
    }

    /// Open the panel with an empty query and the first entry selected.
    pub fn open(&mut self)
        ensures
            final(self).is_open,
            final(self).query@.len() == 0,
            final(self).selected == 0,
            final(self).macros@ == old(self).macros@,
    {
        self.query = String::new();
        self.selected = 0;
        self.is_open = true;
    }

    /// Close the panel and clear the query.
    pub fn close(&mut self)
        ensures
            !final(self).is_open,
            final(self).query@.len() == 0,
            final(self).selected == old(self).selected,
            final(self).macros@ == old(self).macros@,
    {
        self.is_open = false;
        self.query = String::new();
    }

    /// Append a character to the query; the selection goes back to the top.
    pub fn push_char(&mut self, ch: char)
        ensures
            final(self).query@ == old(self).query@.push(ch),
            final(self).selected == 0,
            final(self).is_open == old(self).is_open,
            final(self).macros@ == old(self).macros@,
    {
        push_char(&mut self.query, ch);
        self.selected = 0;
    }

    /// Drop the query's last character; the selection goes back to the top.
    pub fn pop_char(&mut self)
        ensures
            final(self).query@ == if old(self).query@.len() > 0 {
                old(self).query@.drop_last()
            } else {
                old(self).query@
            },
            final(self).selected == 0,
            final(self).is_open == old(self).is_open,
            final(self).macros@ == old(self).macros@,
    {
        pop_char(&mut self.query);
        self.selected = 0;
    }

    /// The filtered list as positions in the macro list.
    pub fn filtered_order(&self) -> (r: Vec<usize>)
        ensures
            self.is_filtered_order(r@),
            forall|j: int| 0 <= j < r@.len() ==> r@[j] < self.macros@.len(),
            r@.len() == self.filtered_len(),
            r@.len() <= self.macros@.len(),
    {
        broadcast use vstd::seq_lib::group_to_multiset_ensures;

        if self.query.as_str().is_empty() {
            let mut r: Vec<usize> = Vec::new();
            let mut i: usize = 0;
            while i < self.macros.len()
                invariant
                    i <= self.macros.len(),
                    r@.len() == i,
                    forall|k: int| 0 <= k < i ==> r@[k] == k,
                decreases self.macros.len() - i,
            {
                r.push(i);
                i = i + 1;
            }
            return r;
        }
        let mut items: Vec<Scored> = Vec::new();
        let mut i: usize = 0;
        while i < self.macros.len()
            invariant
                i <= self.macros.len(),
                keys_of(items@) == macro_entries_upto(self.macros@, self.query@, i as int),
                forall|j: int| 0 <= j < items@.len() ==> #[trigger] items@[j].index < i,
                distinct_indices(keys_of(items@)),
            decreases self.macros.len() - i,
        {
            let m = &self.macros[i];
            let mut hay = m.name.clone();
            push_char(&mut hay, ' ');
            hay.append(m.description.as_str());
            assert(hay@ =~= macro_haystack(self.macros@[i as int]));
            match fuzzy_match(hay.as_str(), self.query.as_str()) {
                Some(score) => {
                    let ghost before = keys_of(items@);
                    let item = Scored { score, freq: 0, name: Vec::new(), index: i };
                    items.push(item);
                    proof {
                        assert(item@.name =~= Seq::<char>::empty());
                        assert(keys_of(items@) =~= before.push(item@));
                    }
                },
                None => {},
            }
            i = i + 1;
        }
        let ghost e = keys_of(items@);
        assert forall|j: int| 0 <= j < e.len() implies #[trigger] e[j].index < self.macros@.len() by {
            assert(e[j].index == items@[j].index);
        }
        let r = rank(items);
        proof {
            let sorted = choose|sorted: Seq<RankKey>|
                #[trigger] is_ranked(sorted) && sorted.to_multiset() == e.to_multiset() && r@ == indices_of(
                    sorted,
                );
            sorted.to_multiset_ensures();
            e.to_multiset_ensures();
            lemma_macro_entries_len(self.macros@, self.query@, self.macros@.len() as int);
            assert forall|j: int| 0 <= j < r@.len() implies r@[j] < self.macros@.len() by {
                assert(sorted.contains(sorted[j]));
                assert(sorted.to_multiset().count(sorted[j]) > 0);
                assert(e.contains(sorted[j]));
                let k = choose|k: int| 0 <= k < e.len() && e[k] == sorted[j];
                assert(e[k].index < self.macros@.len());
            }
        }
        r
    }

    /// The macros of the list as it is shown.
    pub fn filtered(&self) -> (r: Vec<&MacroConfig>)
        ensures
            exists|order: Seq<usize>|
                #[trigger] self.is_filtered_order(order) && order.len() == r@.len() && forall|k: int|
                    0 <= k < r@.len() ==> order[k] < self.macros@.len() && *r@[k] == self.macros@[order[k] as int],
    {
        let order = self.filtered_order();
        let mut out: Vec<&MacroConfig> = Vec::new();
        let mut k: usize = 0;
        while k < order.len()
            invariant
                k <= order.len(),
                forall|j: int| 0 <= j < order@.len() ==> order@[j] < self.macros@.len(),
                out@.len() == k,
                forall|j: int| 0 <= j < k ==> *out@[j] == self.macros@[order@[j] as int],
            decreases order.len() - k,
        {
            out.push(&self.macros[order[k]]);
            k = k + 1;
        }
        out
    }

    /// Move the selection down one entry, wrapping to the top; nothing happens
    /// on an empty list.
    pub fn select_next(&mut self)
        ensures
            final(self).selected == next_index(old(self).selected, old(self).filtered_len()),
            final(self).query == old(self).query,
            final(self).is_open == old(self).is_open,
            final(self).macros@ == old(self).macros@,
    {
        let count = self.filtered_order().len();
        if count > 0 {
            let s = self.selected % count;
            assert((s + 1) % (count as int) == (self.selected + 1) % (count as int)) by (nonlinear_arith)
                requires
                    s == self.selected % count,
                    count > 0,
            ;
            assert((s + 1) % (count as int) == if s + 1 == count { 0 } else { s + 1 }) by (nonlinear_arith)
                requires
                    s < count,
                    count > 0,
            ;
            self.selected = if s + 1 == count {
                0
            } else {
                s + 1
            };
        }
    }

    /// Move the selection up one entry, wrapping to the bottom; nothing
    /// happens on an empty list.
    pub fn select_prev(&mut self)
        ensures
            final(self).selected == prev_index(old(self).selected, old(self).filtered_len()),
            final(self).query == old(self).query,
            final(self).is_open == old(self).is_open,
            final(self).macros@ == old(self).macros@,
    {
        let count = self.filtered_order().len();
        if count > 0 {
            self.selected = if self.selected == 0 {
                count - 1
            } else {
                self.selected - 1
            };
        }
    }

    /// The selected macro of the filtered list, if the selection is inside it.
    pub fn selected_macro(&self) -> (r: Option<&MacroConfig>)
        ensures
            exists|order: Seq<usize>|
                #[trigger] self.is_filtered_order(order) && if self.selected < order.len() {
                    r is Some && *r->0 == self.macros@[order[self.selected as int] as int]
                } else {
                    r is None
                },
    {
        let order = self.filtered_order();
        if self.selected < order.len() {
            Some(&self.macros[order[self.selected]])
        } else {
            None
        }
    }

    /// Replace the macro list (after the configuration was reloaded); the
    /// selection goes back to the top.
    pub fn reload(&mut self, macros: Vec<MacroConfig>)
        ensures
            final(self).macros@ == macros@,
            final(self).selected == 0,
            final(self).query == old(self).query,
            final(self).is_open == old(self).is_open,
    {
        self.macros = macros;
        self.selected = 0;
    }
}

} // verus!
