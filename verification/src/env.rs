//! An ordered map of environment variables.

use vstd::prelude::*;

use crate::text;
use crate::text::{same_text, text_before};

verus! {

/// The variables in the order of their names, each name once.
pub open spec fn sorted_by_name(entries: Seq<(Seq<char>, Seq<char>)>) -> bool {
    forall|i: int, j: int|
        0 <= i < j < entries.len() ==> text::before(
            #[trigger] entries[i].0,
            #[trigger] entries[j].0,
        )
}

/// The value that the variables hold for `name`, if they hold one.
pub open spec fn lookup(entries: Seq<(Seq<char>, Seq<char>)>, name: Seq<char>) -> Option<Seq<char>>
    decreases entries.len(),
{
    if entries.len() == 0 {
        None
    } else if entries.last().0 == name {
        Some(entries.last().1)
    } else {
        lookup(entries.drop_last(), name)
    }
}

/// Environment variables, kept in the order of their names.
#[derive(Debug, PartialEq)]
pub struct EnvMap {
    entries: Vec<(String, String)>,
}

impl DeepView for EnvMap {
    type V = Seq<(Seq<char>, Seq<char>)>;

    closed spec fn deep_view(&self) -> Seq<(Seq<char>, Seq<char>)> {
        self.entries.deep_view()
    }
}

proof fn lemma_lookup_at(entries: Seq<(Seq<char>, Seq<char>)>, i: int)
    requires
        sorted_by_name(entries),
        0 <= i < entries.len(),
    ensures
        lookup(entries, entries[i].0) == Some(entries[i].1),
    decreases entries.len(),
{
    if i < entries.len() - 1 {
        let j = entries.len() - 1;
        text::lemma_before_is_strict_order(entries[i].0, entries[j].0, entries[j].0);
        lemma_lookup_at(entries.drop_last(), i);
    }
}

proof fn lemma_lookup_absent(entries: Seq<(Seq<char>, Seq<char>)>, name: Seq<char>)
    requires
        forall|i: int| 0 <= i < entries.len() ==> #[trigger] entries[i].0 != name,
    ensures
        lookup(entries, name) is None,
    decreases entries.len(),
{
    if entries.len() > 0 {
        assert forall|i: int| 0 <= i < entries.drop_last().len() implies #[trigger] entries.drop_last()[i].0
            != name by {
            assert(entries[i].0 != name);
        }
        lemma_lookup_absent(entries.drop_last(), name);
    }
}

/// A lookup finds exactly the entry that carries the name, wherever it stands.
proof fn lemma_same_entries_same_lookup(
    a: Seq<(Seq<char>, Seq<char>)>,
    b: Seq<(Seq<char>, Seq<char>)>,
    name: Seq<char>,
)
    requires
        sorted_by_name(a),
        sorted_by_name(b),
        forall|v: Seq<char>| #[trigger] a.contains((name, v)) == b.contains((name, v)),
    ensures
        lookup(a, name) == lookup(b, name),
{
    if exists|i: int| 0 <= i < a.len() && #[trigger] a[i].0 == name {
        let i = choose|i: int| 0 <= i < a.len() && #[trigger] a[i].0 == name;
        assert(a[i] == (name, a[i].1));
        assert(a.contains((name, a[i].1)));
        let j = choose|j: int| 0 <= j < b.len() && b[j] == (name, a[i].1);
        lemma_lookup_at(a, i);
        lemma_lookup_at(b, j);
    } else {
        assert forall|j: int| 0 <= j < b.len() implies #[trigger] b[j].0 != name by {
            if b[j].0 == name {
                assert(b[j] == (name, b[j].1));
                assert(b.contains((name, b[j].1)));
                assert(a.contains((name, b[j].1)));
                let i = choose|i: int| 0 <= i < a.len() && a[i] == (name, b[j].1);
                assert(a[i].0 == name);
            }
        }
        lemma_lookup_absent(a, name);
        lemma_lookup_absent(b, name);
    }
}

/// Whatever is found stands among the variables.
proof fn lemma_found_stands(entries: Seq<(Seq<char>, Seq<char>)>, name: Seq<char>)
    requires
        lookup(entries, name) is Some,
    ensures
        exists|i: int| 0 <= i < entries.len() && #[trigger] entries[i].0 == name,
    decreases entries.len(),
{
    let last = entries.len() - 1;
    if entries[last].0 != name {
        lemma_found_stands(entries.drop_last(), name);
        let i = choose|i: int|
            0 <= i < entries.drop_last().len() && #[trigger] entries.drop_last()[i].0 == name;
        assert(entries[i].0 == name);
    }
}

/// Variables are the same if every name has the same value: the order in which
/// they were set leaves no trace.
pub proof fn law_values_determine_variables(
    a: Seq<(Seq<char>, Seq<char>)>,
    b: Seq<(Seq<char>, Seq<char>)>,
)
    requires
        sorted_by_name(a),
        sorted_by_name(b),
        forall|name: Seq<char>| #[trigger] lookup(a, name) == lookup(b, name),
    ensures
        a == b,
    decreases a.len(),
{
    if a.len() == 0 {
        if b.len() > 0 {
            lemma_lookup_at(b, b.len() - 1);
            assert(lookup(a, b.last().0) == lookup(b, b.last().0));
        }
        assert(a =~= b);
    } else {
        let x = a.last();
        lemma_lookup_at(a, a.len() - 1);
        assert(lookup(b, x.0) == Some(x.1));
        lemma_found_stands(b, x.0);
        let j = choose|j: int| 0 <= j < b.len() && #[trigger] b[j].0 == x.0;
        let y = b.last();
        lemma_lookup_at(b, b.len() - 1);
        assert(lookup(a, y.0) == Some(y.1));
        lemma_found_stands(a, y.0);
        let i = choose|i: int| 0 <= i < a.len() && #[trigger] a[i].0 == y.0;
        if x.0 != y.0 {
            assert(text::before(a[i].0, a[a.len() - 1].0));
            assert(text::before(b[j].0, b[b.len() - 1].0));
            text::lemma_before_is_strict_order(x.0, y.0, x.0);
        }
        assert(x == y);
        let front_a = a.drop_last();
        let front_b = b.drop_last();
        assert forall|name: Seq<char>| #[trigger] lookup(front_a, name) == lookup(
            front_b,
            name,
        ) by {
            if name == x.0 {
                assert forall|k: int| 0 <= k < front_a.len() implies #[trigger] front_a[k].0
                    != name by {
                    assert(text::before(a[k].0, a[a.len() - 1].0));
                    text::lemma_before_is_strict_order(name, name, name);
                }
                assert forall|k: int| 0 <= k < front_b.len() implies #[trigger] front_b[k].0
                    != name by {
                    assert(text::before(b[k].0, b[b.len() - 1].0));
                    text::lemma_before_is_strict_order(name, name, name);
                }
                lemma_lookup_absent(front_a, name);
                lemma_lookup_absent(front_b, name);
            } else {
                assert(lookup(a, name) == lookup(b, name));
            }
        }
        law_values_determine_variables(front_a, front_b);
        assert(a =~= front_a.push(x));
        assert(b =~= front_b.push(y));
    }
}

impl EnvMap {
    #[verifier::type_invariant]
    closed spec fn ordered(self) -> bool {
        sorted_by_name(self.entries.deep_view())
    }

    /// No variables.
    pub fn new() -> (env: EnvMap)
        ensures
            env.deep_view() == Seq::<(Seq<char>, Seq<char>)>::empty(),
    {
        let entries: Vec<(String, String)> = Vec::new();
        assert(entries.deep_view() =~= Seq::<(Seq<char>, Seq<char>)>::empty());
        EnvMap { entries }
    }

    /// How many variables there are. They stand in the order of their names.
    pub fn len(&self) -> (n: usize)
        ensures
            n == self.deep_view().len(),
            sorted_by_name(self.deep_view()),
    {
        proof {
            use_type_invariant(self);
        }
        self.entries.len()
    }

    /// The name of the variable at position `i` in the order of names.
    pub fn name_at(&self, i: usize) -> (name: &str)
        requires
            i < self.deep_view().len(),
        ensures
            name@ == self.deep_view()[i as int].0,
    {
        self.entries[i].0.as_str()
    }

    /// The value of the variable at position `i` in the order of names.
    pub fn value_at(&self, i: usize) -> (value: &str)
        requires
            i < self.deep_view().len(),
        ensures
            value@ == self.deep_view()[i as int].1,
    {
        self.entries[i].1.as_str()
    }

    /// The value of the variable called `name`, if it is set.
    pub fn get(&self, name: &str) -> (value: Option<&str>)
        ensures
            value.deep_view() == lookup(self.deep_view(), name@),
    {
        let mut i: usize = self.entries.len();
        assert(self.deep_view().take(i as int) == self.deep_view());
        while i > 0
            invariant
                i <= self.entries.len(),
                lookup(self.deep_view(), name@) == lookup(self.deep_view().take(i as int), name@),
            decreases i,
        {
            assert(self.deep_view().take(i as int).drop_last() == self.deep_view().take(i - 1));
            i = i - 1;
            if same_text(self.entries[i].0.as_str(), name) {
                return Some(self.entries[i].1.as_str());
            }
        }
        None
    }

    /// Sets a variable, in place of the value it had.
    pub fn insert(&mut self, name: String, value: String)
        ensures
            sorted_by_name(final(self).deep_view()),
            lookup(final(self).deep_view(), name@) == Some(value@),
            forall|other: Seq<char>|
                other != name@ ==> #[trigger] lookup(final(self).deep_view(), other) == lookup(
                    old(self).deep_view(),
                    other,
                ),
    {
        proof {
            use_type_invariant(&*self);
        }
        let ghost earlier = self.deep_view();
        let mut entries: Vec<(String, String)> = Vec::new();
        assert(entries.deep_view() =~= Seq::<(Seq<char>, Seq<char>)>::empty());
        std::mem::swap(&mut entries, &mut self.entries);
        let mut i: usize = 0;
        while i < entries.len() && text_before(entries[i].0.as_str(), name.as_str())
            invariant
                i <= entries.len(),
                entries.deep_view() == earlier,
                forall|k: int| 0 <= k < i ==> text::before(#[trigger] earlier[k].0, name@),
            decreases entries.len() - i,
        {
            i = i + 1;
        }
        let ghost added = (name@, value@);
        if i < entries.len() && same_text(entries[i].0.as_str(), name.as_str()) {
            entries.set(i, (name, value));
            proof {
                assert(entries.deep_view() =~= earlier.update(i as int, added));
                Self::lemma_placed(earlier, entries.deep_view(), i as int, added);
            }
        } else {
            entries.insert(i, (name, value));
            proof {
                assert(entries.deep_view() =~= earlier.insert(i as int, added));
                assert forall|k: int| i <= k < earlier.len() implies text::before(
                    added.0,
                    #[trigger] earlier[k].0,
                ) by {
                    text::lemma_before_is_strict_order(earlier[i as int].0, added.0, added.0);
                    text::lemma_before_is_strict_order(added.0, earlier[i as int].0, earlier[k].0);
                }
                Self::lemma_placed(earlier, entries.deep_view(), i as int, added);
            }
        }
        self.entries = entries;
    }

    /// Replacing the entry at `i` by one of the same name, or putting a new
    /// name in its place in the order, changes the lookup of that name alone.
    proof fn lemma_placed(
        earlier: Seq<(Seq<char>, Seq<char>)>,
        later: Seq<(Seq<char>, Seq<char>)>,
        i: int,
        added: (Seq<char>, Seq<char>),
    )
        requires
            sorted_by_name(earlier),
            ({
                ||| 0 <= i < earlier.len() && earlier[i].0 == added.0 && later == earlier.update(
                    i,
                    added,
                )
                ||| {
                    &&& 0 <= i <= earlier.len()
                    &&& later == earlier.insert(i, added)
                    &&& forall|k: int|
                        0 <= k < i ==> text::before(#[trigger] earlier[k].0, added.0)
                    &&& forall|k: int|
                        i <= k < earlier.len() ==> text::before(added.0, #[trigger] earlier[k].0)
                }
            }),
        ensures
            sorted_by_name(later),
            lookup(later, added.0) == Some(added.1),
            forall|other: Seq<char>|
                other != added.0 ==> #[trigger] lookup(later, other) == lookup(earlier, other),
    {
        assert(later[i] == added);
        lemma_lookup_at(later, i);
        assert forall|other: Seq<char>| other != added.0 implies #[trigger] lookup(later, other)
            == lookup(earlier, other) by {
            assert forall|v: Seq<char>| #[trigger] later.contains((other, v)) == earlier.contains(
                (other, v),
            ) by {
                if later.contains((other, v)) {
                    let k = choose|k: int| 0 <= k < later.len() && later[k] == (other, v);
                    if later.len() == earlier.len() || k < i {
                        assert(earlier[k] == (other, v));
                    } else {
                        assert(earlier[k - 1] == (other, v));
                    }
                }
                if earlier.contains((other, v)) {
                    let k = choose|k: int| 0 <= k < earlier.len() && earlier[k] == (other, v);
                    if later.len() == earlier.len() || k < i {
                        assert(later[k] == (other, v));
                    } else {
                        assert(later[k + 1] == (other, v));
                    }
                }
            }
            lemma_same_entries_same_lookup(later, earlier, other);
        }
    }
}

impl Clone for EnvMap {
    fn clone(&self) -> (copy: Self)
        ensures
            copy.deep_view() == self.deep_view(),
    {
        proof {
            use_type_invariant(self);
        }
        let mut entries: Vec<(String, String)> = Vec::new();
        let mut i: usize = 0;
        while i < self.entries.len()
            invariant
                i <= self.entries.len(),
                entries.deep_view() == self.deep_view().take(i as int),
            decreases self.entries.len() - i,
        {
            let ghost earlier = entries.deep_view();
            entries.push((self.entries[i].0.clone(), self.entries[i].1.clone()));
            assert(entries.deep_view() =~= earlier.push(self.deep_view()[i as int]));
            assert(self.deep_view().take(i + 1) == self.deep_view().take(i as int).push(
                self.deep_view()[i as int],
            ));
            i = i + 1;
        }
        assert(self.deep_view().take(self.entries.len() as int) == self.deep_view());
        EnvMap { entries }
    }
}

impl Default for EnvMap {
    fn default() -> (env: Self)
        ensures
            env.deep_view() == Seq::<(Seq<char>, Seq<char>)>::empty(),
    {
        EnvMap::new()
    }
}

} // verus!
