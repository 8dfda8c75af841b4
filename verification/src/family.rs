//! Process families: named sets of process attributes (material, layer
//! height, nozzle, ...).  Two jobs may share a batch only when their family
//! configurations are equal as mappings — same keys, same values; the family
//! name is descriptive only and never enters the comparison.

use vstd::prelude::*;

verus! {

/// The mapping a sequence of `(key, value)` pairs denotes: later pairs win,
/// though a well-formed family never repeats a key.
pub open spec fn pairs_to_map(s: Seq<(String, String)>) -> Map<Seq<char>, Seq<char>>
    decreases s.len(),
{
    if s.len() == 0 {
        Map::empty()
    } else {
        pairs_to_map(s.drop_last()).insert(s.last().0@, s.last().1@)
    }
}

/// No key occurs twice in the pair sequence.
pub open spec fn unique_keys(s: Seq<(String, String)>) -> bool {
    forall|i: int, j: int|
        0 <= i < j < s.len() ==> (#[trigger] s[i]).0@ != (#[trigger] s[j]).0@
}

/// Some pair of the sequence carries key `k`.
pub open spec fn has_key(s: Seq<(String, String)>, k: Seq<char>) -> bool {
    exists|i: int| 0 <= i < s.len() && (#[trigger] s[i]).0@ == k
}

/// Every key of `m1` is present in `m2` with the same value.
pub open spec fn spec_includes(
    m1: Map<Seq<char>, Seq<char>>,
    m2: Map<Seq<char>, Seq<char>>,
) -> bool {
    forall|k: Seq<char>| #[trigger] m1.contains_key(k) ==> m2.contains_key(k) && m2[k] == m1[k]
}

/// The keys of the denoted mapping are exactly the keys of the pairs.
pub proof fn lemma_pairs_to_map_keys(s: Seq<(String, String)>)
    ensures
        forall|k: Seq<char>| #[trigger] pairs_to_map(s).contains_key(k) == has_key(s, k),
    decreases s.len(),
{
    if s.len() == 0 {
    } else {
        lemma_pairs_to_map_keys(s.drop_last());
        assert forall|k: Seq<char>| #[trigger] pairs_to_map(s).contains_key(k) == has_key(s, k) by {
            let sub = s.drop_last();
            assert(pairs_to_map(sub).contains_key(k) == has_key(sub, k));
            if pairs_to_map(s).contains_key(k) {
                if k == s.last().0@ {
                    assert(s[s.len() - 1].0@ == k);
                    assert(has_key(s, k));
                } else {
                    assert(pairs_to_map(sub).contains_key(k));
                    let i: int = choose|i: int| 0 <= i < sub.len() && (#[trigger] sub[i]).0@ == k;
                    assert(s[i].0@ == k);
                    assert(has_key(s, k));
                }
            }
            if has_key(s, k) {
                let i: int = choose|i: int| 0 <= i < s.len() && (#[trigger] s[i]).0@ == k;
                if i == s.len() - 1 {
                    assert(pairs_to_map(s).contains_key(k));
                } else {
                    assert(sub[i] == s[i]);
                    assert(has_key(sub, k));
                    assert(pairs_to_map(s).contains_key(k));
                }
            }
        }
    }
}

/// With unique keys, the pair at index `i` is what the mapping holds for its key.
pub proof fn lemma_pairs_to_map_pair(s: Seq<(String, String)>, i: int)
    requires
        unique_keys(s),
        0 <= i < s.len(),
    ensures
        pairs_to_map(s).contains_key(s[i].0@),
        pairs_to_map(s)[s[i].0@] == s[i].1@,
    decreases s.len(),
{
    if i == s.len() - 1 {
    } else {
        assert(unique_keys(s.drop_last())) by {
            assert forall|a: int, b: int|
                0 <= a < b < s.drop_last().len() implies (#[trigger] s.drop_last()[a]).0@
                != (#[trigger] s.drop_last()[b]).0@ by {
                assert(s[a].0@ != s[b].0@);
            }
        }
        assert(s.drop_last()[i] == s[i]);
        lemma_pairs_to_map_pair(s.drop_last(), i);
        assert(s[i].0@ != s.last().0@);
    }
}

/// A process compatibility key: a family name and an unordered mapping of
/// process attributes, held as key-unique `(key, value)` pairs.
#[derive(Debug)]
pub struct JobFamily {
    pub name: String,
    pub config: Vec<(String, String)>,
}

impl View for JobFamily {
    type V = Map<Seq<char>, Seq<char>>;

    open spec fn view(&self) -> Map<Seq<char>, Seq<char>> {
        pairs_to_map(self.config@)
    }
}

/// Look a key up among the pairs; `None` exactly when the denoted mapping
/// lacks the key.
fn config_get(config: &Vec<(String, String)>, key: &String) -> (r: Option<String>)
    requires
        unique_keys(config@),
    ensures
        match r {
            Some(v) => pairs_to_map(config@).contains_key(key@) && pairs_to_map(config@)[key@]
                == v@,
            None => !pairs_to_map(config@).contains_key(key@),
        },
{
    let mut i: usize = 0;
    while i < config.len()
        invariant
            i <= config@.len(),
            unique_keys(config@),
            forall|j: int| 0 <= j < i ==> (#[trigger] config@[j]).0@ != key@,
        decreases config@.len() - i,
    {
        if config[i].0 == *key {
            proof {
                lemma_pairs_to_map_pair(config@, i as int);
            }
            return Some(config[i].1.clone());
        }
        i += 1;
    }
    proof {
        lemma_pairs_to_map_keys(config@);
    }
    None
}

/// Every pair of `sub` is present in `sup`; `false` exactly when some key of
/// `sub` is missing from `sup` or bound to another value.
fn config_includes(sub: &Vec<(String, String)>, sup: &Vec<(String, String)>) -> (r: bool)
    requires
        unique_keys(sub@),
        unique_keys(sup@),
    ensures
        r == spec_includes(pairs_to_map(sub@), pairs_to_map(sup@)),
{
    let mut i: usize = 0;
    while i < sub.len()
        invariant
            i <= sub@.len(),
            unique_keys(sub@),
            unique_keys(sup@),
            forall|j: int|
                0 <= j < i ==> pairs_to_map(sup@).contains_key((#[trigger] sub@[j]).0@)
                    && pairs_to_map(sup@)[sub@[j].0@] == sub@[j].1@,
        decreases sub@.len() - i,
    {
        let key = sub[i].0.clone();
        match config_get(sup, &key) {
            Some(v) => {
                if !(v == sub[i].1) {
                    proof {
                        lemma_pairs_to_map_pair(sub@, i as int);
                    }
                    return false;
                }
                proof {
                    lemma_pairs_to_map_pair(sub@, i as int);
                }
            },
            None => {
                proof {
                    lemma_pairs_to_map_pair(sub@, i as int);
                }
                return false;
            },
        }
        i += 1;
    }
    proof {
        lemma_pairs_to_map_keys(sub@);
        assert forall|k: Seq<char>| #[trigger] pairs_to_map(sub@).contains_key(
            k,
        ) implies pairs_to_map(sup@).contains_key(k) && pairs_to_map(sup@)[k] == pairs_to_map(
            sub@,
        )[k] by {
            let wi: int = choose|wi: int| 0 <= wi < sub@.len() && (#[trigger] sub@[wi]).0@ == k;
            lemma_pairs_to_map_pair(sub@, wi);
        }
    }
    true
}

impl JobFamily {
    /// The family's attribute keys never repeat.
    pub open spec fn wf(self) -> bool {
        unique_keys(self.config@)
    }

    /// A fresh family with no process attributes yet.
    pub fn new(name: String) -> (r: JobFamily)
        ensures
            r.name == name,
            r.config@.len() == 0,
            r@ == Map::<Seq<char>, Seq<char>>::empty(),
            r.wf(),
    {
        JobFamily { name, config: Vec::new() }
    }

    /// Record one process attribute.  Returns `false`, changing nothing, when
    /// the key is already present: a family is written once, never edited.
    pub fn add_config_entry(&mut self, key: String, value: String) -> (r: bool)
        requires
            old(self).wf(),
        ensures
            final(self).wf(),
            final(self).name == old(self).name,
            r == !old(self)@.contains_key(key@),
            r ==> final(self)@ == old(self)@.insert(key@, value@),
            !r ==> *final(self) == *old(self),
    {
        match config_get(&self.config, &key) {
            Some(_) => false,
            None => {
                proof {
                    lemma_pairs_to_map_keys(self.config@);
                }
                let ghost pre = self.config@;
                let pair = (key, value);
                self.config.push(pair);
                proof {
                    assert(self.config@.drop_last() =~= pre);
                    assert(unique_keys(self.config@)) by {
                        assert forall|a: int, b: int|
                            0 <= a < b < self.config@.len() implies (#[trigger] self.config@[a]).0@
                            != (#[trigger] self.config@[b]).0@ by {
                            if b < self.config@.len() - 1 {
                                assert(pre[a].0@ != pre[b].0@);
                            } else {
                                assert(!has_key(pre, self.config@[b].0@));
                                assert(pre[a].0@ != self.config@[b].0@);
                            }
                        }
                    }
                }
                true
            },
        }
    }

    /// A value-equal copy of the family.
    pub fn duplicate(&self) -> (r: JobFamily)
        ensures
            r.name == self.name,
            r.config@ == self.config@,
            r@ == self@,
            r.wf() == self.wf(),
    {
        let mut config: Vec<(String, String)> = Vec::new();
        let mut i: usize = 0;
        while i < self.config.len()
            invariant
                i <= self.config@.len(),
                config@ == self.config@.take(i as int),
            decreases self.config@.len() - i,
        {
            let pair = (self.config[i].0.clone(), self.config[i].1.clone());
            proof {
                assert(pair == self.config@[i as int]);
                assert(self.config@.take(i + 1 as int) =~= self.config@.take(i as int).push(
                    self.config@[i as int],
                ));
            }
            config.push(pair);
            i += 1;
        }
        proof {
            assert(self.config@.take(self.config@.len() as int) =~= self.config@);
        }
        JobFamily { name: self.name.clone(), config }
    }

    /// Structural equality of the two attribute mappings: same keys bound to
    /// the same values.  The family names play no part.
    pub fn compatible(&self, other: &JobFamily) -> (r: bool)
        requires
            self.wf(),
            other.wf(),
        ensures
            r == (self@ == other@),
    {
        let fwd = config_includes(&self.config, &other.config);
        let bwd = config_includes(&other.config, &self.config);
        proof {
            let m1 = pairs_to_map(self.config@);
            let m2 = pairs_to_map(other.config@);
            if spec_includes(m1, m2) && spec_includes(m2, m1) {
                assert(m1.dom() =~= m2.dom());
                assert(m1 =~= m2);
            }
            if m1 == m2 {
                assert(spec_includes(m1, m2));
                assert(spec_includes(m2, m1));
            }
        }
        fwd && bwd
    }
}

} // verus!
