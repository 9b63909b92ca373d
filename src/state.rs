use vstd::prelude::*;
use crate::types::AllocationHolding;
use crate::text::blank;
use crate::order::name_lt;

verus! {

/// Who governs the splitter, and a nomination to hand that over.
pub struct Config {
    pub this: String,
    pub gov_contract: String,
    pub new_gov_contract: Option<String>,
    pub change_gov_contract_by_height: Option<u64>,
}

/// Everything the splitter stores: its governance record, its entries in registry
/// order, and the addresses allowed to flush.
pub struct State {
    pub config: Config,
    pub holdings: Vec<AllocationHolding>,
    pub flush_whitelist: Vec<String>,
}

pub open spec fn valid_terms(e: AllocationHolding) -> bool {
    &&& e.name@.len() > 0
    &&& e.allocation > 0
    &&& !blank(e.send_after.denom@)
}

pub open spec fn names_distinct(es: Seq<AllocationHolding>) -> bool {
    forall|i: int, j: int| 0 <= i < j < es.len() ==> es[i].name@ != es[j].name@
}

/// Entries stand in ascending order of name.
pub open spec fn names_sorted(es: Seq<AllocationHolding>) -> bool {
    forall|i: int, j: int| 0 <= i < j < es.len() ==> name_lt(es[i].name@, es[j].name@)
}

/// The registry's invariant: unique names in ascending order, and valid terms.
pub open spec fn holdings_wf(es: Seq<AllocationHolding>) -> bool {
    &&& names_distinct(es)
    &&& names_sorted(es)
    &&& forall|i: int| 0 <= i < es.len() ==> valid_terms(#[trigger] es[i])
}

impl Config {
    /// The nomination and its activation point are set together or not at all.
    pub open spec fn wf(&self) -> bool {
        self.new_gov_contract.is_some() == self.change_gov_contract_by_height.is_some()
    }
}

pub open spec fn addresses_distinct(list: Seq<String>) -> bool {
    forall|i: int, j: int| 0 <= i < j < list.len() ==> list[i]@ != list[j]@
}

impl State {
    pub open spec fn wf(&self) -> bool {
        &&& self.config.wf()
        &&& holdings_wf(self.holdings@)
        &&& addresses_distinct(self.flush_whitelist@)
    }
}

pub open spec fn has_member(list: Seq<String>, a: Seq<char>) -> bool {
    exists|i: int| 0 <= i < list.len() && list[i]@ == a
}

/// May `caller` trigger a flush: the controller or a whitelisted address.
pub open spec fn may_flush(s: State, caller: Seq<char>) -> bool {
    caller == s.config.gov_contract@ || has_member(s.flush_whitelist@, caller)
}

pub open spec fn find_name(es: Seq<AllocationHolding>, name: Seq<char>) -> Option<int> {
    if exists|i: int| 0 <= i < es.len() && es[i].name@ == name {
        Some(choose|i: int| 0 <= i < es.len() && es[i].name@ == name)
    } else {
        None
    }
}

/// Position of the entry named `name`, if any.
pub fn index_of(es: &Vec<AllocationHolding>, name: &String) -> (r: Option<usize>)
    requires
        names_distinct(es@),
    ensures
        r matches Some(i) ==> find_name(es@, name@) == Some(i as int),
        r is None ==> find_name(es@, name@) is None,
{
    let mut i: usize = 0;
    while i < es.len()
        invariant
            i <= es@.len(),
            names_distinct(es@),
            forall|j: int| 0 <= j < i ==> es@[j].name@ != name@,
        decreases es@.len() - i,
    {
        if es[i].name == *name {
            proof {
                let k = choose|k: int| 0 <= k < es@.len() && es@[k].name@ == name@;
                if k > i as int {
                    let ii = i as int;
                    assert(0 <= ii < k < es@.len());
                    assert(es@[ii].name@ != es@[k].name@);
                }
                assert(k == i as int);
            }
            return Some(i);
        }
        i = i + 1;
    }
    None
}

/// Whether `a` is in `list`.
pub fn contains_address(list: &Vec<String>, a: &String) -> (r: bool)
    ensures
        r == has_member(list@, a@),
{
    let mut i: usize = 0;
    while i < list.len()
        invariant
            i <= list@.len(),
            forall|j: int| 0 <= j < i ==> list@[j]@ != a@,
        decreases list@.len() - i,
    {
        if list[i] == *a {
            return true;
        }
        i = i + 1;
    }
    false
}

/// Position of `a` in `list`, if it is there.
pub fn position_of(list: &Vec<String>, a: &String) -> (r: Option<usize>)
    ensures
        r matches Some(i) ==> i < list@.len() && list@[i as int]@ == a@,
        r is None <==> !has_member(list@, a@),
{
    let mut i: usize = 0;
    while i < list.len()
        invariant
            i <= list@.len(),
            forall|j: int| 0 <= j < i ==> list@[j]@ != a@,
        decreases list@.len() - i,
    {
        if list[i] == *a {
            return Some(i);
        }
        i = i + 1;
    }
    None
}

/// Entries with the same names, in the same order, and valid terms keep the invariant.
pub proof fn lemma_same_names(es: Seq<AllocationHolding>, hs: Seq<AllocationHolding>)
    requires
        holdings_wf(es),
        hs.len() == es.len(),
        forall|i: int| 0 <= i < hs.len() ==> (#[trigger] hs[i]).name == es[i].name && valid_terms(hs[i]),
    ensures
        holdings_wf(hs),
{
    assert forall|a: int, b: int| 0 <= a < b < hs.len() implies hs[a].name@ != hs[b].name@ && name_lt(
        hs[a].name@,
        hs[b].name@,
    ) by {
        assert(hs[a].name == es[a].name);
        assert(hs[b].name == es[b].name);
    };
}

} // verus!
