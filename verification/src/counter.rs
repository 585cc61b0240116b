//! The running totals of each extension.

use crate::config::{texts, Config};
use crate::count::{count_sum, sum_counts};
use vstd::prelude::*;

verus! {

/// The line and character counts of each extension asked for. Every
/// extension has one entry, from the start.
#[derive(Debug)]
pub struct Counter {
    extensions: Vec<String>,
    line_count: Vec<Option<u32>>,
    char_count: Vec<Option<u32>>,
}

/// The names in `names`, each one where it stands first.
pub open spec fn first_seen(names: Seq<Seq<char>>) -> Seq<Seq<char>>
    decreases names.len(),
{
    if names.len() == 0 {
        Seq::empty()
    } else {
        let before = first_seen(names.drop_last());
        if before.contains(names.last()) {
            before
        } else {
            before.push(names.last())
        }
    }
}

/// `first_seen` keeps every name and keeps none twice.
pub proof fn lemma_first_seen(names: Seq<Seq<char>>)
    ensures
        first_seen(names).to_set() == names.to_set(),
        first_seen(names).no_duplicates(),
    decreases names.len(),
{
    if names.len() > 0 {
        let rest = names.drop_last();
        lemma_first_seen(rest);
        assert(names == rest.push(names.last()));
        rest.lemma_push_to_set_commute(names.last());
        first_seen(rest).lemma_push_to_set_commute(names.last());
        assert(first_seen(rest).contains(names.last()) ==> rest.to_set().insert(names.last())
            == rest.to_set());
    }
}

/// The index of `extension` among `keys`, if it is one of them.
fn position(keys: &Vec<String>, extension: &String) -> (r: Option<usize>)
    ensures
        match r {
            Some(i) => i < keys.len() && keys[i as int]@ == extension@,
            None => !texts(keys@).contains(extension@),
        },
{
    let mut i: usize = 0;
    while i < keys.len()
        invariant
            i <= keys.len(),
            forall|k: int| 0 <= k < i ==> texts(keys@)[k] != extension@,
        decreases keys.len() - i,
    {
        if keys[i] == *extension {
            return Some(i);
        }
        i += 1;
    }
    None
}

impl View for Counter {
    type V = Map<Seq<char>, (Option<u32>, Option<u32>)>;

    /// Each extension with its line count and its character count.
    closed spec fn view(&self) -> Self::V {
        Map::new(
            |e: Seq<char>| self.keys().contains(e),
            |e: Seq<char>|
                {
                    let i = self.keys().index_of(e);
                    (self.line_count[i], self.char_count[i])
                },
        )
    }
}

impl Counter {
    #[verifier::type_invariant]
    spec fn inv(&self) -> bool {
        &&& self.line_count.len() == self.extensions.len()
        &&& self.char_count.len() == self.extensions.len()
        &&& self.keys().no_duplicates()
    }

    /// The extensions that have an entry, in the order in which they are listed.
    pub closed spec fn keys(&self) -> Seq<Seq<char>> {
        texts(self.extensions@)
    }

    /// Whether the counter has an entry for each extension that `config` asks for.
    pub open spec fn covers(&self, config: &Config) -> bool {
        config.accepted().subset_of(self@.dom())
    }

    /// The entry at index `i` is the one of its extension.
    proof fn lemma_entry(&self, i: int)
        requires
            self.inv(),
            0 <= i < self.extensions.len(),
        ensures
            self@.contains_key(self.keys()[i]),
            self@[self.keys()[i]] == (self.line_count[i], self.char_count[i]),
    {
        assert(self.keys().index_of(self.keys()[i]) == i);
    }

    /// A counter with an entry at zero for each extension that `config` asks for.
    pub fn new(config: &Config) -> (counter: Counter)
        ensures
            counter@.dom() == config.accepted(),
            forall|e: Seq<char>| #[trigger]
                counter@.contains_key(e) ==> counter@[e] == (Some(0u32), Some(0u32)),
            counter.keys() == first_seen(config@.extensions),
    {
        let mut extensions: Vec<String> = Vec::new();
        let mut line_count: Vec<Option<u32>> = Vec::new();
        let mut char_count: Vec<Option<u32>> = Vec::new();
        let mut n: usize = 0;
        while n < config.extensions.len()
            invariant
                n <= config.extensions.len(),
                line_count.len() == extensions.len(),
                char_count.len() == extensions.len(),
                texts(extensions@) == first_seen(texts(config.extensions@.take(n as int))),
                forall|i: int| 0 <= i < extensions.len() ==> line_count[i] == Some(0u32),
                forall|i: int| 0 <= i < extensions.len() ==> char_count[i] == Some(0u32),
            decreases config.extensions.len() - n,
        {
            let ghost listed = texts(extensions@);
            proof {
                let named = texts(config.extensions@.take(n + 1));
                assert(named.drop_last() == texts(config.extensions@.take(n as int)));
                assert(named.last() == config.extensions[n as int]@);
            }
            match position(&extensions, &config.extensions[n]) {
                None => {
                    extensions.push(config.extensions[n].clone());
                    line_count.push(Some(0));
                    char_count.push(Some(0));
                    assert(texts(extensions@) == listed.push(config.extensions[n as int]@));
                },
                Some(i) => {
                    assert(listed[i as int] == config.extensions[n as int]@);
                },
            }
            n += 1;
        }
        proof {
            assert(config.extensions@.take(n as int) == config.extensions@);
            lemma_first_seen(texts(config.extensions@));
        }
        let counter = Counter { extensions, line_count, char_count };
        assert forall|e: Seq<char>| #[trigger] counter@.contains_key(e) implies counter@[e] == (
            Some(0u32),
            Some(0u32),
        ) by {
            counter.lemma_entry(counter.keys().index_of(e));
        }
        assert(counter@.dom() == counter.keys().to_set());
        counter
    }

    /// The counts of `extension`, if it has an entry.
    pub fn get(&self, extension: &String) -> (r: Option<(Option<u32>, Option<u32>)>)
        ensures
            r == if self@.contains_key(extension@) {
                Some(self@[extension@])
            } else {
                None
            },
    {
        proof {
            use_type_invariant(self);
        }
        match position(&self.extensions, extension) {
            Some(i) => {
                proof {
                    self.lemma_entry(i as int);
                }
                Some((self.line_count[i], self.char_count[i]))
            },
            None => None,
        }
    }

    /// Adds `lines` and `chars` to the entry of `extension`; the other
    /// entries stay as they are.
    pub fn record(&mut self, extension: &String, lines: Option<u32>, chars: Option<u32>)
        requires
            old(self)@.contains_key(extension@),
        ensures
            final(self).keys() == old(self).keys(),
            final(self)@ == old(self)@.insert(
                extension@,
                (
                    count_sum(old(self)@[extension@].0, lines),
                    count_sum(old(self)@[extension@].1, chars),
                ),
            ),
    {
        proof {
            use_type_invariant(&*self);
        }
        if let Some(i) = position(&self.extensions, extension) {
            proof {
                self.lemma_entry(i as int);
            }
            let new_lines = sum_counts(self.line_count[i], lines);
            let new_chars = sum_counts(self.char_count[i], chars);
            self.line_count[i] = new_lines;
            self.char_count[i] = new_chars;
            assert forall|e: Seq<char>| self@.contains_key(e) implies #[trigger] self@[e] == old(
                self,
            )@.insert(extension@, (new_lines, new_chars))[e] by {
                let k = self.keys().index_of(e);
                self.lemma_entry(k);
                old(self).lemma_entry(k);
            }
            assert(self@ =~= old(self)@.insert(extension@, (new_lines, new_chars)));
        }
    }

    /// The entries in the order of `keys`: each extension that has an entry,
    /// once, with its line count and its character count.
    pub fn rows(&self) -> (rows: Vec<(String, Option<u32>, Option<u32>)>)
        ensures
            rows.len() == self.keys().len(),
            forall|i: int|
                0 <= i < rows.len() ==> {
                    &&& (#[trigger] rows[i]).0@ == self.keys()[i]
                    &&& self@.contains_key(rows[i].0@)
                    &&& self@[rows[i].0@] == (rows[i].1, rows[i].2)
                },
            forall|i: int, j: int| 0 <= i < j < rows.len() ==> rows[i].0@ != rows[j].0@,
            forall|e: Seq<char>|
                self@.contains_key(e) ==> exists|i: int| 0 <= i < rows.len() && rows[i].0@ == e,
    {
        proof {
            use_type_invariant(self);
        }
        let mut rows: Vec<(String, Option<u32>, Option<u32>)> = Vec::new();
        let mut i: usize = 0;
        while i < self.extensions.len()
            invariant
                self.inv(),
                i <= self.extensions.len(),
                rows.len() == i,
                forall|k: int|
                    0 <= k < i ==> {
                        &&& (#[trigger] rows[k]).0@ == self.keys()[k]
                        &&& rows[k].1 == self.line_count[k]
                        &&& rows[k].2 == self.char_count[k]
                    },
            decreases self.extensions.len() - i,
        {
            rows.push((self.extensions[i].clone(), self.line_count[i], self.char_count[i]));
            i += 1;
        }
        proof {
            assert forall|k: int| 0 <= k < rows.len() implies self@.contains_key(
                (#[trigger] rows[k]).0@,
            ) && self@[rows[k].0@] == (rows[k].1, rows[k].2) by {
                self.lemma_entry(k);
            }
            assert forall|e: Seq<char>| self@.contains_key(e) implies exists|k: int|
                0 <= k < rows.len() && rows[k].0@ == e by {
                assert(rows[self.keys().index_of(e)].0@ == e);
            }
        }
        rows
    }
}

} // verus!
