//! Which selected formation the player opens itself.

use vstd::prelude::*;
use crate::model::FormationSelection;
use crate::player::Player;
use crate::strings::str_eq;

verus! {

/// The fields of a formation table entry that decide who opens it: its unique key, the id
/// its variants share, and when it applies (`"any"`, `"self"` or `"other"`).
#[derive(Debug, Clone)]
pub struct FormationRef {
    pub key: String,
    pub formation_id: String,
    pub applicable_when: String,
}

/// Position of the first entry with key `key`, or -1.
pub open spec fn first_formation(table: Seq<FormationRef>, key: Seq<char>) -> int
    decreases table.len(),
{
    if table.len() == 0 {
        -1
    } else if first_formation(table.drop_last(), key) >= 0 {
        first_formation(table.drop_last(), key)
    } else if table.last().key@ == key {
        table.len() - 1
    } else {
        -1
    }
}

/// The formation the player opens itself: the id of the selected entry (the first one
/// with the selected key) when that entry applies to `"self"`; nothing otherwise.
pub open spec fn self_formation_spec(sel: Option<FormationSelection>, table: Seq<FormationRef>) -> Option<Seq<char>> {
    match sel {
        None => None,
        Some(s) => {
            let k = first_formation(table, s.key@);
            if k >= 0 && table[k].applicable_when@ == "self"@ { Some(table[k].formation_id@) } else { None }
        },
    }
}

proof fn lemma_first_formation(table: Seq<FormationRef>, key: Seq<char>)
    ensures
        -1 <= first_formation(table, key) < table.len(),
        first_formation(table, key) >= 0 ==> table[first_formation(table, key)].key@ == key,
        first_formation(table, key) >= 0 ==> forall|j: int| 0 <= j < first_formation(table, key) ==> (#[trigger] table[j]).key@ != key,
        first_formation(table, key) < 0 ==> forall|j: int| 0 <= j < table.len() ==> (#[trigger] table[j]).key@ != key,
    decreases table.len(),
{
    if table.len() > 0 {
        lemma_first_formation(table.drop_last(), key);
        assert forall|j: int| 0 <= j < table.len() - 1 implies table[j] == table.drop_last()[j] by {}
    }
}

/// The id of the formation the player opens itself, from the selection and the table.
pub fn resolve_formation_self_id(sel: &Option<FormationSelection>, table: &Vec<FormationRef>) -> (r: Option<String>)
    ensures
        match r {
            Some(id) => self_formation_spec(*sel, table@) == Some(id@),
            None => self_formation_spec(*sel, table@) is None,
        },
{
    let s = match sel {
        Some(s) => s,
        None => return None,
    };
    proof {
        lemma_first_formation(table@, s.key@);
        reveal_strlit("self");
    }
    let mut i: usize = 0;
    while i < table.len()
        invariant
            i <= table@.len(),
            *sel == Some(*s),
            forall|j: int| 0 <= j < i ==> (#[trigger] table@[j]).key@ != s.key@,
        decreases table.len() - i,
    {
        if table[i].key == s.key {
            proof { lemma_first_formation(table@, s.key@); }
            proof {
                lemma_first_formation(table@, s.key@);
                let f = first_formation(table@, s.key@);
                assert(f >= 0);
                if f < i {
                    assert(table@[f].key@ != s.key@);
                }
                if f > i {
                    assert(table@[i as int].key@ != s.key@);
                }
                assert(f == i);
            }
            if str_eq(table[i].applicable_when.as_str(), "self") {
                return Some(table[i].formation_id.clone());
            }
            return None;
        }
        i = i + 1;
    }
    None
}

/// Whether the player opens formation `formation_id` itself.
pub fn formation_is_self(player: &Player, formation_id: &str) -> (r: bool)
    ensures
        r == (match player.formation_self_id {
            Some(id) => id@ == formation_id@,
            None => false,
        }),
{
    match &player.formation_self_id {
        Some(id) => str_eq(id.as_str(), formation_id),
        None => false,
    }
}

} // verus!
