//! The registry of loaded models: each model under its name, the names kept
//! in sorted order, and a default model that is always one of them.
//!
//! The models are held in a vector sorted by name rather than in a hash map.
//! Listing the models and choosing the default both need the names in sorted
//! order, which the sorted vector keeps as its invariant; and a `HashMap` keyed
//! by `String` gives nothing to prove a lookup against, since vstd specifies
//! its operations only for keys whose hashing and equality it knows.
use vstd::prelude::*;

use crate::text::{debug_list, debug_list_text, seq_lt, str_eq, str_lt, string_views};
use crate::text::{lemma_seq_lt_irreflexive, lemma_seq_lt_total, lemma_seq_lt_transitive};

verus! {

/// The model registered under `name` after inserting `pairs` in order into an
/// empty map: a later pair replaces an earlier one of the same name.
pub open spec fn lookup<M>(pairs: Seq<(String, M)>, name: Seq<char>) -> Option<M>
    decreases pairs.len(),
{
    if pairs.len() == 0 {
        None
    } else if pairs.last().0@ == name {
        Some(pairs.last().1)
    } else {
        lookup(pairs.drop_last(), name)
    }
}

/// The names of `pairs`, in order.
pub open spec fn names_of<M>(pairs: Seq<(String, M)>) -> Seq<Seq<char>> {
    pairs.map_values(|p: (String, M)| p.0@)
}

/// The texts of a sequence of string references.
pub open spec fn ref_views(s: Seq<&String>) -> Seq<Seq<char>> {
    Seq::new(s.len(), |i: int| s[i]@)
}

/// Names in strictly increasing lexicographic order (hence distinct).
pub open spec fn strictly_sorted(names: Seq<Seq<char>>) -> bool {
    forall|a: int, b: int| 0 <= a < b < names.len() ==> seq_lt(#[trigger] names[a], #[trigger] names[b])
}

/// `names` lists, in sorted order, exactly the names that `pairs` registers.
pub open spec fn sorted_names_of<M>(pairs: Seq<(String, M)>, names: Seq<Seq<char>>) -> bool {
    &&& strictly_sorted(names)
    &&& forall|k: Seq<char>| #[trigger] names.contains(k) <==> lookup(pairs, k) is Some
}

/// Why a registry cannot be built.
#[derive(Debug, Clone, PartialEq, Eq)]
pub enum RegistryError {
    /// No model was loaded.
    NoModels,
    /// The requested default model is not among the loaded ones.
    DefaultNotFound { name: String, available: Vec<String> },
}

impl RegistryError {
    /// The error's message; `models_dir` is the directory that was scanned.
    pub fn message(&self, models_dir: &str) -> (m: String)
        ensures
            m@ == match self {
                RegistryError::NoModels => "No models found. Place model subdirectories in "@
                    + models_dir@ + " (each containing model.onnx and tokenizer.json)."@,
                RegistryError::DefaultNotFound { name, available } => "Default model '"@ + name@
                    + "' not found. Available: "@ + debug_list_text(
                    string_views(available@),
                ),
            },
    {
        match self {
            RegistryError::NoModels => {
                let mut m = "No models found. Place model subdirectories in ".to_owned();
                m.append(models_dir);
                m.append(" (each containing model.onnx and tokenizer.json).");
                m
            },
            RegistryError::DefaultNotFound { name, available } => {
                let mut m = "Default model '".to_owned();
                m.append(name.as_str());
                m.append("' not found. Available: ");
                let list = debug_list(available);
                m.append(list.as_str());
                m
            },
        }
    }
}

/// Loaded models by name, with a default model.
pub struct ModelRegistry<M> {
    models: Vec<(String, M)>,
    default_model: String,
}

proof fn lemma_lookup_at<M>(pairs: Seq<(String, M)>, i: int)
    requires
        0 <= i < pairs.len(),
        strictly_sorted(names_of(pairs)),
    ensures
        lookup(pairs, pairs[i].0@) == Some(pairs[i].1),
    decreases pairs.len(),
{
    let names = names_of(pairs);
    if i < pairs.len() - 1 {
        assert(seq_lt(names[i], names[pairs.len() - 1]));
        lemma_seq_lt_irreflexive(names[i]);
        assert(names_of(pairs.drop_last()) =~= names.drop_last());
        lemma_lookup_at(pairs.drop_last(), i);
    }
}

proof fn lemma_lookup_absent<M>(pairs: Seq<(String, M)>, name: Seq<char>)
    requires
        forall|i: int| 0 <= i < pairs.len() ==> (#[trigger] pairs[i]).0@ != name,
    ensures
        lookup(pairs, name) is None,
    decreases pairs.len(),
{
    if pairs.len() > 0 {
        assert(pairs.last() == pairs[pairs.len() - 1]);
        lemma_lookup_absent(pairs.drop_last(), name);
    }
}

proof fn lemma_lookup_found<M>(pairs: Seq<(String, M)>, name: Seq<char>) -> (i: int)
    requires
        lookup(pairs, name) is Some,
    ensures
        0 <= i < pairs.len(),
        pairs[i].0@ == name,
        lookup(pairs, name) == Some(pairs[i].1),
    decreases pairs.len(),
{
    if pairs.last().0@ == name {
        pairs.len() - 1
    } else {
        lemma_lookup_found(pairs.drop_last(), name)
    }
}

/// Index of the entry named `name` in a name-sorted vector, if there is one.
fn index_of<M>(models: &Vec<(String, M)>, name: &str) -> (r: Option<usize>)
    requires
        strictly_sorted(names_of(models@)),
    ensures
        match r {
            Some(i) => i < models@.len() && models@[i as int].0@ == name@ && lookup(models@, name@)
                == Some(models@[i as int].1),
            None => lookup(models@, name@) is None,
        },
{
    let mut i: usize = 0;
    while i < models.len()
        invariant
            strictly_sorted(names_of(models@)),
            i <= models@.len(),
            forall|k: int| 0 <= k < i ==> (#[trigger] models@[k]).0@ != name@,
        decreases models@.len() - i,
    {
        if str_eq(models[i].0.as_str(), name) {
            proof {
                lemma_lookup_at(models@, i as int);
            }
            return Some(i);
        }
        i = i + 1;
    }
    proof {
        lemma_lookup_absent(models@, name@);
    }
    None
}

/// Registers `model` under `name` in a name-sorted vector, replacing a model
/// of the same name.
fn insert_sorted<M>(models: &mut Vec<(String, M)>, name: String, model: M)
    requires
        strictly_sorted(names_of(old(models)@)),
    ensures
        strictly_sorted(names_of(final(models)@)),
        forall|k: Seq<char>| #[trigger]
            lookup(final(models)@, k) == if k == name@ {
                Some(model)
            } else {
                lookup(old(models)@, k)
            },
{
    let ghost before = models@;
    let mut p: usize = 0;
    while p < models.len() && str_lt(models[p].0.as_str(), name.as_str())
        invariant
            models@ == before,
            p <= models@.len(),
            forall|q: int| 0 <= q < p ==> seq_lt((#[trigger] models@[q]).0@, name@),
        decreases models@.len() - p,
    {
        p = p + 1;
    }
    let ghost names = names_of(before);
    if p < models.len() && str_eq(models[p].0.as_str(), name.as_str()) {
        models[p] = (name, model);
        proof {
            let after = models@;
            assert(names_of(after) =~= names.update(p as int, name@));
            assert(names.update(p as int, name@) =~= names);
            assert forall|k: Seq<char>| #[trigger]
                lookup(after, k) == if k == name@ {
                    Some(model)
                } else {
                    lookup(before, k)
                } by {
                lemma_lookup_at(after, p as int);
                if k != name@ {
                    if lookup(before, k) is Some {
                        let i = lemma_lookup_found(before, k);
                        lemma_lookup_at(before, i);
                        lemma_lookup_at(after, i);
                    } else {
                        assert forall|i: int| 0 <= i < after.len() implies (#[trigger] after[i]).0@
                            != k by {
                            if i != p && after[i].0@ == k {
                                lemma_lookup_at(before, i);
                            }
                        }
                        lemma_lookup_absent(after, k);
                    }
                }
            }
        }
    } else {
        proof {
            if p < before.len() {
                lemma_seq_lt_total(names[p as int], name@);
                assert(seq_lt(name@, names[p as int]));
            }
        }
        models.insert(p, (name, model));
        proof {
            let after = models@;
            let new_name = after[p as int].0@;
            assert(names_of(after) =~= names.insert(p as int, new_name));
            assert forall|a: int, b: int| 0 <= a < b < after.len() implies seq_lt(
                #[trigger] names_of(after)[a],
                #[trigger] names_of(after)[b],
            ) by {
                if b < p {
                    assert(seq_lt(names[a], names[b]));
                } else if a > p {
                    assert(seq_lt(names[a - 1], names[b - 1]));
                } else if a < p && b > p {
                    assert(seq_lt(names[a], names[b - 1]));
                } else if a == p {
                    if b - 1 > p {
                        assert(seq_lt(names[p as int], names[b - 1]));
                        lemma_seq_lt_transitive(new_name, names[p as int], names[b - 1]);
                    }
                } else {
                    assert(seq_lt(before[a].0@, new_name));
                }
            }
            assert forall|k: Seq<char>| #[trigger]
                lookup(after, k) == if k == new_name {
                    Some(after[p as int].1)
                } else {
                    lookup(before, k)
                } by {
                lemma_lookup_at(after, p as int);
                if k != new_name {
                    if lookup(before, k) is Some {
                        let i = lemma_lookup_found(before, k);
                        lemma_lookup_at(before, i);
                        if i < p {
                            lemma_lookup_at(after, i);
                        } else {
                            assert(after[i + 1] == before[i]);
                            lemma_lookup_at(after, i + 1);
                        }
                    } else {
                        assert forall|i: int| 0 <= i < after.len() implies (#[trigger] after[i]).0@
                            != k by {
                            if i < p && after[i].0@ == k {
                                lemma_lookup_at(before, i);
                            } else if i > p && after[i].0@ == k {
                                assert(after[i] == before[i - 1]);
                                lemma_lookup_at(before, i - 1);
                            }
                        }
                        lemma_lookup_absent(after, k);
                    }
                }
            }
        }
    }
}

impl<M> ModelRegistry<M> {
    #[verifier::type_invariant]
    spec fn well_formed(self) -> bool {
        &&& strictly_sorted(names_of(self.models@))
        &&& lookup(self.models@, self.default_model@) is Some
    }

    /// The model registered under `name`, if any.
    pub closed spec fn model_for(self, name: Seq<char>) -> Option<M> {
        lookup(self.models@, name)
    }

    /// The registered names in sorted order.
    pub closed spec fn names(self) -> Seq<Seq<char>> {
        names_of(self.models@)
    }

    /// The name of the default model.
    pub closed spec fn default_name(self) -> Seq<char> {
        self.default_model@
    }

    /// Builds a registry from loaded models, registered in order (a later
    /// model replaces an earlier one of the same name). The default model is
    /// `default_model` when given, otherwise the first name alphabetically.
    /// Refused when no model was loaded, or when the given default is not
    /// among the loaded models.
    pub fn new(models: Vec<(String, M)>, default_model: Option<String>) -> (r: Result<
        Self,
        RegistryError,
    >)
        ensures
            match r {
                Ok(reg) => {
                    &&& models@.len() > 0
                    &&& forall|k: Seq<char>| #[trigger] reg.model_for(k) == lookup(models@, k)
                    &&& sorted_names_of(models@, reg.names())
                    &&& match default_model {
                        Some(d) => reg.default_name() == d@,
                        None => reg.default_name() == reg.names()[0],
                    }
                },
                Err(RegistryError::NoModels) => models@.len() == 0,
                Err(RegistryError::DefaultNotFound { name, available }) => {
                    &&& models@.len() > 0
                    &&& default_model == Some(name)
                    &&& lookup(models@, name@) is None
                    &&& sorted_names_of(models@, string_views(available@))
                },
            },
    {
        let ghost all = models@;
        let mut input = models;
        let mut sorted: Vec<(String, M)> = Vec::new();
        let mut i: usize = 0;
        let n = input.len();
        while input.len() > 0
            invariant
                n == all.len(),
                i <= n,
                input@ == all.skip(i as int),
                strictly_sorted(names_of(sorted@)),
                forall|k: Seq<char>| #[trigger] lookup(sorted@, k) == lookup(all.take(i as int), k),
            decreases input@.len(),
        {
            let (name, model) = input.remove(0);
            assert(all[i as int] == (name, model));
            insert_sorted(&mut sorted, name, model);
            proof {
                assert(all.take(i + 1).drop_last() =~= all.take(i as int));
                assert(input@ =~= all.skip(i + 1));
            }
            i = i + 1;
        }
        assert(all.take(n as int) =~= all);
        let ghost names = names_of(sorted@);
        proof {
            assert forall|k: Seq<char>| #[trigger] names.contains(k) <==> lookup(all, k) is Some by {
                if names.contains(k) {
                    let j = choose|j: int| 0 <= j < names.len() && names[j] == k;
                    lemma_lookup_at(sorted@, j);
                }
                if lookup(sorted@, k) is Some {
                    let j = lemma_lookup_found(sorted@, k);
                    assert(names[j] == k);
                }
            }
        }
        if sorted.len() == 0 {
            proof {
                if all.len() > 0 {
                    assert(lookup(all, all.last().0@) is Some);
                    assert(names.contains(all.last().0@));
                }
            }
            return Err(RegistryError::NoModels);
        }
        assert(all.len() > 0) by {
            if all.len() == 0 {
                assert(lookup(all, names[0]) is None);
                assert(names.contains(names[0]));
            }
        }
        let default_model = match default_model {
            Some(d) => {
                match index_of(&sorted, d.as_str()) {
                    Some(_) => d,
                    None => {
                        let mut available: Vec<String> = Vec::new();
                        for j in 0..sorted.len()
                            invariant
                                string_views(available@) == names.take(j as int),
                                names == names_of(sorted@),
                        {
                            assert(names.len() == sorted@.len());
                            assert(j < names.len());
                            assert(string_views(available@).len() == j);
                            let name_j = sorted[j].0.clone();
                            assert(name_j@ == names[j as int]);
                            let ghost before = available@;
                            available.push(name_j);
                            assert(available@ == before.push(name_j));
                            assert forall|k: int| 0 <= k < j + 1 implies #[trigger] string_views(
                                available@,
                            )[k] == names.take(j + 1)[k] by {
                                if k < j {
                                    assert(string_views(before)[k] == names.take(j as int)[k]);
                                }
                            }
                            assert(string_views(available@) =~= names.take(j + 1));
                        }
                        assert(names.take(sorted@.len() as int) =~= names);
                        return Err(RegistryError::DefaultNotFound { name: d, available });
                    },
                }
            },
            None => {
                proof {
                    lemma_lookup_at(sorted@, 0);
                }
                sorted[0].0.clone()
            },
        };
        Ok(ModelRegistry { models: sorted, default_model })
    }

    /// The model registered under `name`, if any.
    pub fn get(&self, name: &str) -> (r: Option<&M>)
        ensures
            match r {
                Some(m) => self.model_for(name@) == Some(*m),
                None => self.model_for(name@) is None,
            },
    {
        proof {
            use_type_invariant(self);
        }
        match index_of(&self.models, name) {
            Some(i) => Some(&self.models[i].1),
            None => None,
        }
    }

    /// The name of the default model, which is always a registered model.
    pub fn default_model_name(&self) -> (r: &str)
        ensures
            r@ == self.default_name(),
            self.model_for(r@) is Some,
    {
        proof {
            use_type_invariant(self);
        }
        self.default_model.as_str()
    }

    /// The registered names in sorted order, each once.
    pub fn model_names(&self) -> (r: Vec<&String>)
        ensures
            ref_views(r@) == self.names(),
            strictly_sorted(self.names()),
            forall|k: Seq<char>| #[trigger] self.names().contains(k) <==> self.model_for(k) is Some,
    {
        proof {
            use_type_invariant(self);
            let names = names_of(self.models@);
            assert forall|k: Seq<char>| #[trigger] names.contains(k) <==> lookup(self.models@, k) is Some by {
                if names.contains(k) {
                    let j = choose|j: int| 0 <= j < names.len() && names[j] == k;
                    lemma_lookup_at(self.models@, j);
                }
                if lookup(self.models@, k) is Some {
                    let j = lemma_lookup_found(self.models@, k);
                    assert(names[j] == k);
                }
            }
        }
        let mut r: Vec<&String> = Vec::new();
        for j in 0..self.models.len()
            invariant
                ref_views(r@) == names_of(self.models@).take(j as int),
        {
            assert(names_of(self.models@).len() == self.models@.len());
            assert(ref_views(r@).len() == j);
            let name_j = &self.models[j].0;
            assert(name_j@ == names_of(self.models@)[j as int]);
            let ghost before = r@;
            r.push(name_j);
            assert(r@ == before.push(name_j));
            assert forall|k: int| 0 <= k < j + 1 implies #[trigger] ref_views(r@)[k] == names_of(
                self.models@,
            ).take(j + 1)[k] by {
                if k < j {
                    assert(ref_views(before)[k] == names_of(self.models@).take(j as int)[k]);
                }
            }
            assert(ref_views(r@) =~= names_of(self.models@).take(j + 1));
        }
        assert(names_of(self.models@).take(self.models@.len() as int) =~= names_of(self.models@));
        r
    }
}

} // verus!
