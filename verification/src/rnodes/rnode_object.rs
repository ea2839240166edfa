//! The document node of an object: its entries, ordered by key.
//!
//! The entries are kept in a vector, in ascending order of their keys, and no
//! key occurs twice. Keys are ordered as `String` orders them: character by
//! character, by code point, a proper prefix before the longer text.

use vstd::prelude::*;
use crate::rnodes::rnode::EnumNodeType;
use crate::rnodes::rnode::RNode;
use crate::rnodes::rnode::RNodeView;
use crate::rnodes::rnode::entries_view;

verus! {

/// Whether `a` comes before `b` in the order of keys.
pub open spec fn text_less(a: Seq<char>, b: Seq<char>) -> bool
    decreases a.len(),
{
    if b.len() == 0 {
        false
    } else if a.len() == 0 {
        true
    } else if a[0] != b[0] {
        (a[0] as int) < (b[0] as int)
    } else {
        text_less(a.drop_first(), b.drop_first())
    }
}

/// Compares two strings with `<`, which orders `String` values by their
/// characters' code points, position by position.
#[verifier::external_body]
fn string_less(a: &String, b: &String) -> (r: bool)
    ensures
        r == text_less(a@, b@),
{
    a < b
}

/// No text comes before itself.
pub proof fn lemma_text_less_irreflexive(a: Seq<char>)
    ensures
        !text_less(a, a),
    decreases a.len(),
{
    if a.len() > 0 {
        lemma_text_less_irreflexive(a.drop_first());
    }
}

/// What comes before a text comes before every text after it.
pub proof fn lemma_text_less_transitive(a: Seq<char>, b: Seq<char>, c: Seq<char>)
    requires
        text_less(a, b),
        text_less(b, c),
    ensures
        text_less(a, c),
    decreases a.len(),
{
    if a.len() > 0 && a[0] == b[0] && b[0] == c[0] {
        lemma_text_less_transitive(a.drop_first(), b.drop_first(), c.drop_first());
    }
}

/// Of two texts that differ, one comes before the other.
pub proof fn lemma_text_less_total(a: Seq<char>, b: Seq<char>)
    ensures
        a == b || text_less(a, b) || text_less(b, a),
    decreases a.len(),
{
    if a.len() == 0 || b.len() == 0 {
        if a.len() == 0 && b.len() == 0 {
            assert(a =~= b);
        }
    } else if a[0] == b[0] {
        lemma_text_less_total(a.drop_first(), b.drop_first());
        if a.drop_first() == b.drop_first() {
            assert(a =~= seq![a[0]] + a.drop_first());
            assert(b =~= seq![b[0]] + b.drop_first());
        }
    }
}

/// The first position from `from` on whose key is not before `key`.
pub open spec fn insert_position(entries: Seq<(String, RNode)>, key: Seq<char>, from: int) -> int
    decreases entries.len() - from,
{
    if 0 <= from < entries.len() && text_less(entries[from].0@, key) {
        insert_position(entries, key, from + 1)
    } else {
        from
    }
}

/// The entries after `key` was given `value`: the entry with that key is
/// replaced where there is one, else the new entry stands before the first
/// entry with a greater key.
pub open spec fn put_entry(entries: Seq<(String, RNode)>, key: String, value: RNode) -> Seq<
    (String, RNode),
> {
    let at = insert_position(entries, key@, 0);
    if at < entries.len() && entries[at].0@ == key@ {
        entries.update(at, (key, value))
    } else {
        entries.insert(at, (key, value))
    }
}

/// The entries that come of putting those of `given` one after the other,
/// the first first, into an empty object.
pub open spec fn put_all(given: Seq<(String, RNode)>) -> Seq<(String, RNode)>
    decreases given.len(),
{
    if given.len() == 0 {
        Seq::empty()
    } else {
        put_entry(put_all(given.drop_last()), given.last().0, given.last().1)
    }
}

/// Whether the keys ascend strictly.
pub open spec fn keys_ascend(entries: Seq<(String, RNode)>) -> bool {
    forall|i: int, j: int|
        0 <= i < j < entries.len() ==> text_less(#[trigger] entries[i].0@, #[trigger] entries[j].0@)
}

/// The position at which a key goes in: every key before it is less than
/// the key, and the key at it, if there is one, is not.
pub proof fn lemma_insert_position(entries: Seq<(String, RNode)>, key: Seq<char>, from: int)
    requires
        0 <= from <= entries.len(),
    ensures
        from <= insert_position(entries, key, from) <= entries.len(),
        forall|i: int|
            from <= i < insert_position(entries, key, from) ==> text_less(
                #[trigger] entries[i].0@,
                key,
            ),
        insert_position(entries, key, from) < entries.len() ==> !text_less(
            entries[insert_position(entries, key, from)].0@,
            key,
        ),
    decreases entries.len() - from,
{
    if from < entries.len() && text_less(entries[from].0@, key) {
        lemma_insert_position(entries, key, from + 1);
    }
}

/// Putting an entry into entries whose keys ascend leaves them ascending.
pub proof fn lemma_put_entry_ascends(entries: Seq<(String, RNode)>, key: String, value: RNode)
    requires
        keys_ascend(entries),
    ensures
        keys_ascend(put_entry(entries, key, value)),
{
    let at = insert_position(entries, key@, 0);
    lemma_insert_position(entries, key@, 0);
    let after = put_entry(entries, key, value);
    if at < entries.len() && entries[at].0@ == key@ {
        assert forall|i: int, j: int| 0 <= i < j < after.len() implies text_less(
            #[trigger] after[i].0@,
            #[trigger] after[j].0@,
        ) by {
            assert(text_less(entries[i].0@, entries[j].0@));
        }
    } else {
        assert forall|i: int, j: int| 0 <= i < j < after.len() implies text_less(
            #[trigger] after[i].0@,
            #[trigger] after[j].0@,
        ) by {
            if j < at {
                assert(text_less(entries[i].0@, entries[j].0@));
            } else if j == at {
                assert(text_less(entries[i].0@, key@));
            } else {
                // j > at: after[j] is entries[j - 1], whose key is greater than `key`
                lemma_text_less_total(entries[at].0@, key@);
                if j - 1 > at {
                    assert(text_less(entries[at].0@, entries[j - 1].0@));
                    lemma_text_less_transitive(key@, entries[at].0@, entries[j - 1].0@);
                }
                if i < at {
                    assert(text_less(entries[i].0@, key@));
                    lemma_text_less_transitive(entries[i].0@, key@, entries[j - 1].0@);
                } else if i > at {
                    assert(text_less(entries[i - 1].0@, entries[j - 1].0@));
                }
            }
        }
    }
}

/// However the entries are given, the keys of the object made of them
/// ascend: the order of the entries is that of their keys, not that in
/// which they were given.
pub proof fn lemma_put_all_ascends(given: Seq<(String, RNode)>)
    ensures
        keys_ascend(put_all(given)),
    decreases given.len(),
{
    if given.len() > 0 {
        lemma_put_all_ascends(given.drop_last());
        lemma_put_entry_ascends(put_all(given.drop_last()), given.last().0, given.last().1);
    }
}

/// [`insert_position`] on the values of entries.
pub open spec fn insert_position_view(
    entries: Seq<(Seq<char>, RNodeView)>,
    key: Seq<char>,
    from: int,
) -> int
    decreases entries.len() - from,
{
    if 0 <= from < entries.len() && text_less(entries[from].0, key) {
        insert_position_view(entries, key, from + 1)
    } else {
        from
    }
}

/// [`put_entry`] on the values of entries.
pub open spec fn put_entry_view(
    entries: Seq<(Seq<char>, RNodeView)>,
    key: Seq<char>,
    value: RNodeView,
) -> Seq<(Seq<char>, RNodeView)> {
    let at = insert_position_view(entries, key, 0);
    if at < entries.len() && entries[at].0 == key {
        entries.update(at, (key, value))
    } else {
        entries.insert(at, (key, value))
    }
}

proof fn lemma_insert_position_view(entries: Seq<(String, RNode)>, key: Seq<char>, from: int)
    requires
        0 <= from <= entries.len(),
    ensures
        insert_position_view(entries_view(entries), key, from) == insert_position(
            entries,
            key,
            from,
        ),
    decreases entries.len() - from,
{
    if from < entries.len() && text_less(entries[from].0@, key) {
        lemma_insert_position_view(entries, key, from + 1);
    }
}

/// Putting an entry and then taking values gives what taking values and
/// then putting the entry's value gives.
pub proof fn lemma_put_entry_view(entries: Seq<(String, RNode)>, key: String, value: RNode)
    ensures
        entries_view(put_entry(entries, key, value)) == put_entry_view(
            entries_view(entries),
            key@,
            value@,
        ),
{
    lemma_insert_position_view(entries, key@, 0);
    lemma_insert_position(entries, key@, 0);
    assert(entries_view(put_entry(entries, key, value)) =~= put_entry_view(
        entries_view(entries),
        key@,
        value@,
    ));
}

#[derive(Debug)]
pub struct RNodeObject {
    pub map: Vec<(String, RNode)>,
}

impl RNodeObject {
    /// Whether the entries are in ascending order of their keys, so that no
    /// key occurs twice.
    pub open spec fn wf(&self) -> bool {
        keys_ascend(self.map@)
    }

    /// The object that holds the given entries. Where a key is given more
    /// than once, its last value stays.
    pub fn new(map: Vec<(String, RNode)>) -> (r: Self)
        ensures
            r.map@ == put_all(map@),
            r.wf(),
    {
        let mut given = map;
        let mut reversed: Vec<(String, RNode)> = Vec::new();
        while given.len() > 0
            invariant
                given@ + reversed@.reverse() == map@,
            decreases given@.len(),
        {
            let ghost before = given@;
            let entry = given.pop().unwrap();
            reversed.push(entry);
            assert(given@ + reversed@.reverse() =~= map@) by {
                assert(reversed@.reverse() =~= seq![entry] + reversed@.drop_last().reverse());
            }
        }
        let mut result = Self { map: Vec::new() };
        let ghost mut done: Seq<(String, RNode)> = Seq::empty();
        assert(reversed@.reverse() =~= map@);
        while reversed.len() > 0
            invariant
                done + reversed@.reverse() == map@,
                result.map@ == put_all(done),
            decreases reversed@.len(),
        {
            let ghost before = reversed@;
            let (key, value) = reversed.pop().unwrap();
            proof {
                assert(before.reverse() =~= seq![(key, value)] + reversed@.reverse());
                let ghost prev = done;
                done = done.push((key, value));
                assert(done + reversed@.reverse() =~= map@);
                assert(done.drop_last() =~= prev);
                assert(done.last() == (key, value));
            }
            result = result.add_move(key, value);
        }
        proof {
            assert(done + reversed@.reverse() =~= done);
            lemma_put_all_ascends(map@);
        }
        result
    }

    pub fn is_empty(&self) -> (r: bool)
        ensures
            r == (self.map@.len() == 0),
    {
        self.map.len() == 0
    }

    pub fn len(&self) -> (r: usize)
        ensures
            r == self.map@.len(),
    {
        self.map.len()
    }

    /// Gives `key` a copy of itself with `value`, see [`RNodeObject::add_move`].
    pub fn add_copy(self, key: &String, value: RNode) -> (r: Self)
        ensures
            r.map@ == put_entry(self.map@, *key, value),
            self.wf() ==> r.wf(),
    {
        self.add_move(key.clone(), value)
    }

    /// Gives `key` the value `value`: a new entry at its place in the order
    /// of keys, or a new value for the entry that has the key already.
    pub fn add_move(self, key: String, value: RNode) -> (r: Self)
        ensures
            r.map@ == put_entry(self.map@, key, value),
            self.wf() ==> r.wf(),
    {
        let mut map = self.map;
        let mut at: usize = 0;
        while at < map.len() && string_less(&map[at].0, &key)
            invariant
                at <= map@.len(),
                map@ == self.map@,
                insert_position(map@, key@, 0) == insert_position(map@, key@, at as int),
            decreases map@.len() - at,
        {
            at += 1;
        }
        proof {
            if self.wf() {
                lemma_put_entry_ascends(self.map@, key, value);
            }
        }
        if at < map.len() && map[at].0 == key {
            map.set(at, (key, value));
        } else {
            map.insert(at, (key, value));
        }
        Self { map }
    }

    /// The value of `key`, if the object has that key.
    pub fn get(&self, key: &String) -> (r: Option<&RNode>)
        ensures
            match r {
                Some(v) => exists|i: int|
                    0 <= i < self.map@.len() && (#[trigger] self.map@[i]).0@ == key@ && *v
                        == self.map@[i].1 && forall|j: int|
                        0 <= j < i ==> (#[trigger] self.map@[j]).0@ != key@,
                None => forall|i: int|
                    0 <= i < self.map@.len() ==> (#[trigger] self.map@[i]).0@ != key@,
            },
    {
        let mut i: usize = 0;
        while i < self.map.len()
            invariant
                i <= self.map@.len(),
                forall|j: int| 0 <= j < i ==> (#[trigger] self.map@[j]).0@ != key@,
            decreases self.map@.len() - i,
        {
            if self.map[i].0 == *key {
                return Some(&self.map[i].1);
            }
            i += 1;
        }
        None
    }

    /// The value of `key`, if the object has that key.
    pub fn get_mut(&mut self, key: &String) -> (r: Option<&RNode>)
        ensures
            *final(self) == *old(self),
            match r {
                Some(v) => exists|i: int|
                    0 <= i < old(self).map@.len() && (#[trigger] old(self).map@[i]).0@ == key@ && *v
                        == old(self).map@[i].1 && forall|j: int|
                        0 <= j < i ==> (#[trigger] old(self).map@[j]).0@ != key@,
                None => forall|i: int|
                    0 <= i < old(self).map@.len() ==> (#[trigger] old(self).map@[i]).0@ != key@,
            },
    {
        self.get(key)
    }

    /// The entries, in ascending order of their keys.
    pub fn get_map(&self) -> (r: &Vec<(String, RNode)>)
        ensures
            r == &self.map,
    {
        &self.map
    }

    pub fn get_node_type(&self) -> (r: EnumNodeType)
        ensures
            r == EnumNodeType::OBJECT,
    {
        EnumNodeType::OBJECT
    }
}

} // verus!
