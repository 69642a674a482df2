use vstd::prelude::*;

use crate::json::{
    find_key, json_wf, lemma_entries_model_at, lemma_entries_model_dom, lemma_entries_model_len,
    Json, JVal,
};

verus! {

/// Why a progress count could not be resolved.
#[derive(Debug, Clone, Copy, PartialEq, Eq, Structural)]
pub enum ResolveError {
    /// The identifier names no entry of the tree root.
    UnknownIdentifier,
    /// The identifier's node has no `criteria` object under it.
    MissingCriteria,
}

/// The direct child of `t` named `id`, if `t` is an object that has one.
pub open spec fn node_of(t: JVal, id: Seq<char>) -> Option<JVal> {
    match t {
        JVal::Obj(m) => if m.contains_key(id) {
            Some(m[id])
        } else {
            None
        },
        _ => None,
    }
}

/// The key map of `t[id].criteria`, if `id` resolves to a node with a
/// `criteria` object under it.
pub open spec fn criteria_of(t: JVal, id: Seq<char>) -> Option<Map<Seq<char>, JVal>> {
    match node_of(t, id) {
        None => None,
        Some(node) => match node_of(node, "criteria"@) {
            Some(JVal::Obj(c)) => Some(c),
            _ => None,
        },
    }
}

/// The progress count of `id` in `t`: how many keys stand under
/// `t[id].criteria`. Absence of the identifier, of `criteria`, or a
/// non-object `criteria` resolve to nothing, not to zero.
pub open spec fn progress_of(t: JVal, id: Seq<char>) -> Option<nat> {
    match criteria_of(t, id) {
        Some(c) => Some(c.dom().len()),
        None => None,
    }
}

/// Count the criteria recorded for one identifier in the tree: the number of
/// keys under `json[adv_id].criteria`. Values under the criteria keys are
/// never inspected.
pub fn get_progress(json: &Json, adv_id: &str) -> (r: Result<usize, ResolveError>)
    requires
        json_wf(*json),
    ensures
        r matches Ok(n) ==> progress_of(json@, adv_id@) == Some(n as nat),
        r is Ok <==> progress_of(json@, adv_id@) is Some,
        r == Result::<usize, ResolveError>::Err(ResolveError::UnknownIdentifier) <==> node_of(
            json@,
            adv_id@,
        ) is None,
        r == Result::<usize, ResolveError>::Err(ResolveError::MissingCriteria) <==> (node_of(
            json@,
            adv_id@,
        ) is Some && progress_of(json@, adv_id@) is None),
{
    let node = match json {
        Json::Object(entries) => {
            match find_key(entries, &adv_id.to_owned()) {
                Some(i) => {
                    proof {
                        lemma_entries_model_dom(entries@);
                        lemma_entries_model_at(entries@, i as int);
                        assert(json_wf(entries@[i as int].1));
                    }
                    &entries[i].1
                },
                None => {
                    proof {
                        lemma_entries_model_dom(entries@);
                    }
                    return Err(ResolveError::UnknownIdentifier);
                },
            }
        },
        _ => {
            return Err(ResolveError::UnknownIdentifier);
        },
    };
    let crit = match node {
        Json::Object(entries) => {
            match find_key(entries, &String::from_str("criteria")) {
                Some(i) => {
                    proof {
                        lemma_entries_model_dom(entries@);
                        lemma_entries_model_at(entries@, i as int);
                        assert(json_wf(entries@[i as int].1));
                    }
                    &entries[i].1
                },
                None => {
                    proof {
                        lemma_entries_model_dom(entries@);
                    }
                    return Err(ResolveError::MissingCriteria);
                },
            }
        },
        _ => {
            return Err(ResolveError::MissingCriteria);
        },
    };
    match crit {
        Json::Object(entries) => {
            proof {
                lemma_entries_model_len(entries@);
            }
            Ok(entries.len())
        },
        _ => Err(ResolveError::MissingCriteria),
    }
}

} // verus!
