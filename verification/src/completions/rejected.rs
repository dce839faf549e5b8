//! Models that rejected a `reasoning_effort` at least once this run.
//!
//! Effort levels are declared data, and a gateway can accept a set that is never advertised, so
//! a declared level can be wrong for the actual backend. Such a request is repaired and retried,
//! and the model is remembered here, so that no further round trip is lost on it.
use vstd::prelude::*;

use crate::providers::{Model, ModelView};
use crate::text::same_text;

verus! {

/// The remembered models, each by its `provider/id`.
pub struct RejectedModels {
    keys: Vec<String>,
}

impl View for RejectedModels {
    type V = Set<Seq<char>>;

    closed spec fn view(&self) -> Set<Seq<char>> {
        self.keys@.map_values(|key: String| key@).to_set()
    }
}

/// The name under which a model is remembered.
pub open spec fn model_key(model: ModelView) -> Seq<char> {
    model.provider + seq!['/'] + model.id
}

fn key_of(model: &Model) -> (key: String)
    ensures
        key@ == model_key(model@),
{
    let mut key = model.provider.clone();
    key.push('/');
    key.append(model.id.as_str());
    assert(key@ =~= model_key(model@));
    key
}

/// No model is remembered yet.
pub fn reasoning_rejected() -> (rejected: RejectedModels)
    ensures
        rejected@ == Set::<Seq<char>>::empty(),
{
    let rejected = RejectedModels { keys: Vec::new() };
    assert(rejected@ =~= Set::empty());
    rejected
}

/// Whether this model is known to reject the knob.
pub fn reasoning_is_rejected(rejected: &RejectedModels, model: &Model) -> (known: bool)
    ensures
        known == rejected@.contains(model_key(model@)),
{
    let key = key_of(model);
    let ghost names = rejected.keys@.map_values(|key: String| key@);
    let mut i: usize = 0;
    while i < rejected.keys.len()
        invariant
            i <= rejected.keys@.len(),
            key@ == model_key(model@),
            names == rejected.keys@.map_values(|key: String| key@),
            forall|k: int| 0 <= k < i ==> #[trigger] names[k] != key@,
        decreases rejected.keys.len() - i,
    {
        if same_text(rejected.keys[i].as_str(), key.as_str()) {
            assert(names[i as int] == key@);
            assert(names.contains(key@));
            return true;
        }
        i = i + 1;
    }
    assert(!names.contains(key@));
    false
}

/// Remembers that this model rejects the knob.
pub fn mark_reasoning_rejected(rejected: &mut RejectedModels, model: &Model)
    ensures
        final(rejected)@ == old(rejected)@.insert(model_key(model@)),
{
    let ghost before = rejected.keys@.map_values(|key: String| key@);
    if reasoning_is_rejected(rejected, model) {
        assert(rejected@ =~= rejected@.insert(model_key(model@)));
        return;
    }
    rejected.keys.push(key_of(model));
    proof {
        let after = rejected.keys@.map_values(|key: String| key@);
        assert(after =~= before.push(model_key(model@)));
        assert forall|key: Seq<char>| #[trigger]
            after.to_set().contains(key) == before.to_set().insert(model_key(model@)).contains(
            key,
        ) by {
            if before.contains(key) {
                let k = choose|k: int| 0 <= k < before.len() && before[k] == key;
                assert(after[k] == key);
            }
            if key == model_key(model@) {
                assert(after[before.len() as int] == key);
            }
        }
        assert(after.to_set() =~= before.to_set().insert(model_key(model@)));
    }
}

} // verus!
