//! The order of texts, and lists kept in that order.

use vstd::prelude::*;

use crate::text::{chars_of, lemma_views_push, same, views};

verus! {

broadcast use lemma_views_push;

/// Whether `a` comes before `b`, character by character.
pub open spec fn before(a: Seq<char>, b: Seq<char>) -> bool
    decreases a.len(),
{
    if b.len() == 0 {
        false
    } else if a.len() == 0 {
        true
    } else if a[0] != b[0] {
        a[0] < b[0]
    } else {
        before(a.skip(1), b.skip(1))
    }
}

/// The order is total: of two different texts one comes before the other.
pub proof fn lemma_before_total(a: Seq<char>, b: Seq<char>)
    ensures
        before(a, b) || before(b, a) || a == b,
        !before(a, a),
        !(before(a, b) && before(b, a)),
    decreases a.len(),
{
    if a.len() > 0 {
        lemma_before_total(a.skip(1), if b.len() > 0 {
            b.skip(1)
        } else {
            b
        });
        if b.len() > 0 && a[0] == b[0] && a.skip(1) == b.skip(1) {
            assert(a =~= seq![a[0]] + a.skip(1));
            assert(b =~= seq![b[0]] + b.skip(1));
        }
        lemma_before_total(a.skip(1), a.skip(1));
    } else if b.len() == 0 {
        assert(a =~= b);
    }
}

/// The order is transitive.
pub proof fn lemma_before_transitive(a: Seq<char>, b: Seq<char>, c: Seq<char>)
    requires
        before(a, b),
        before(b, c),
    ensures
        before(a, c),
    decreases a.len(),
{
    if a.len() > 0 && b.len() > 0 && c.len() > 0 && a[0] == b[0] && b[0] == c[0] {
        lemma_before_transitive(a.skip(1), b.skip(1), c.skip(1));
    }
}

/// Whether `a` comes before `b`.
pub fn text_before(a: &str, b: &str) -> (r: bool)
    ensures
        r == before(a@, b@),
{
    let x = chars_of(a);
    let y = chars_of(b);
    let mut i: usize = 0;
    proof {
        assert(x@.skip(0) =~= x@);
        assert(y@.skip(0) =~= y@);
    }
    loop
        invariant
            i <= x@.len(),
            i <= y@.len(),
            x@ == a@,
            y@ == b@,
            before(a@, b@) == before(x@.skip(i as int), y@.skip(i as int)),
        decreases x.len() - i,
    {
        if i == y.len() {
            return false;
        }
        if i == x.len() {
            return true;
        }
        if x[i] != y[i] {
            return x[i] < y[i];
        }
        proof {
            assert(x@.skip(i as int).skip(1) =~= x@.skip(i + 1));
            assert(y@.skip(i as int).skip(1) =~= y@.skip(i + 1));
        }
        i += 1;
    }
}

/// Every text comes before the ones that follow it; none stands twice.
pub open spec fn ascending(texts: Seq<Seq<char>>) -> bool {
    forall|i: int, j: int|
        0 <= i < j < texts.len() ==> before(#[trigger] texts[i], #[trigger] texts[j])
}

/// The lists hold the same texts, however often and in whatever order.
pub open spec fn same_texts(a: Seq<Seq<char>>, b: Seq<Seq<char>>) -> bool {
    forall|x: Seq<char>| a.contains(x) <==> #[trigger] b.contains(x)
}

/// Two ascending lists of the same texts are equal: the sorted form of a list is unique.
pub proof fn law_sorted_form_is_unique(a: Seq<Seq<char>>, b: Seq<Seq<char>>)
    requires
        ascending(a),
        ascending(b),
        same_texts(a, b),
    ensures
        a == b,
    decreases a.len(),
{
    if a.len() == 0 {
        if b.len() > 0 {
            assert(b.contains(b[0]));
            assert(a.contains(b[0]));
        }
        assert(a =~= b);
    } else {
        assert(a.contains(a[0]));
        assert(b.contains(a[0]));
        let k = choose|k: int| 0 <= k < b.len() && b[k] == a[0];
        assert(b.contains(b[0]));
        assert(a.contains(b[0]));
        let m = choose|m: int| 0 <= m < a.len() && a[m] == b[0];
        if k > 0 && m > 0 {
            assert(before(b[0], b[k]));
            assert(before(a[0], a[m]));
            lemma_before_total(a[0], b[0]);
        }
        lemma_before_total(a[0], a[0]);
        assert(a[0] == b[0]);
        let x = a.skip(1);
        let y = b.skip(1);
        assert forall|t: Seq<char>| x.contains(t) <==> #[trigger] y.contains(t) by {
            if x.contains(t) {
                let i = choose|i: int| 0 <= i < x.len() && x[i] == t;
                assert(a[i + 1] == t);
                assert(a.contains(t));
                assert(b.contains(t));
                let j = choose|j: int| 0 <= j < b.len() && b[j] == t;
                if j == 0 {
                    assert(before(a[0], a[i + 1]));
                }
                assert(y[j - 1] == t);
            }
            if y.contains(t) {
                let i = choose|i: int| 0 <= i < y.len() && y[i] == t;
                assert(b[i + 1] == t);
                assert(b.contains(t));
                assert(a.contains(t));
                let j = choose|j: int| 0 <= j < a.len() && a[j] == t;
                if j == 0 {
                    assert(before(b[0], b[i + 1]));
                }
                assert(x[j - 1] == t);
            }
        }
        assert forall|i: int, j: int| 0 <= i < j < x.len() implies before(
            #[trigger] x[i],
            #[trigger] x[j],
        ) by {
            assert(before(a[i + 1], a[j + 1]));
        }
        assert forall|i: int, j: int| 0 <= i < j < y.len() implies before(
            #[trigger] y[i],
            #[trigger] y[j],
        ) by {
            assert(before(b[i + 1], b[j + 1]));
        }
        law_sorted_form_is_unique(x, y);
        assert(a =~= seq![a[0]] + x);
        assert(b =~= seq![b[0]] + y);
    }
}

/// The place of a text in an ascending list: the number of texts before it.
fn place(texts: &Vec<String>, text: &str) -> (r: usize)
    requires
        ascending(views(texts@)),
    ensures
        r <= texts@.len(),
        forall|i: int| 0 <= i < r ==> before(#[trigger] views(texts@)[i], text@),
        forall|i: int| r <= i < texts@.len() ==> !before(#[trigger] views(texts@)[i], text@),
{
    let mut i: usize = 0;
    while i < texts.len()
        invariant
            i <= texts@.len(),
            ascending(views(texts@)),
            forall|k: int| 0 <= k < i ==> before(#[trigger] views(texts@)[k], text@),
        decreases texts.len() - i,
    {
        if !text_before(texts[i].as_str(), text) {
            proof {
                let model = views(texts@);
                assert forall|k: int| i <= k < texts@.len() implies !before(
                    #[trigger] model[k],
                    text@,
                ) by {
                    if before(model[k], text@) && k > i {
                        assert(before(model[i as int], model[k]));
                        lemma_before_transitive(model[i as int], model[k], text@);
                    }
                }
            }
            return i;
        }
        i += 1;
    }
    i
}

/// Adds a text to an ascending list unless it is there.
fn add_sorted(texts: &mut Vec<String>, text: &str)
    requires
        ascending(views(old(texts)@)),
    ensures
        ascending(views(final(texts)@)),
        forall|x: Seq<char>|
            #[trigger] views(final(texts)@).contains(x) <==> views(old(texts)@).contains(x) || x
                == text@,
{
    let at = place(texts, text);
    let ghost model = views(texts@);
    if at < texts.len() && same(texts[at].as_str(), text) {
        proof {
            assert(model[at as int] == text@);
            assert(model.contains(text@));
        }
        return;
    }
    let item = text.to_owned();
    let ghost old_texts = texts@;
    texts.insert(at, item);
    proof {
        let after = views(texts@);
        assert(after =~= model.insert(at as int, text@));
        assert forall|i: int, j: int| 0 <= i < j < after.len() implies before(
            #[trigger] after[i],
            #[trigger] after[j],
        ) by {
            if j < at {
                assert(before(model[i], model[j]));
            } else if j == at {
                assert(before(model[i], text@));
            } else if i == at {
                assert(!before(model[j - 1], text@));
                lemma_before_total(model[j - 1], text@);
                if model[j - 1] == text@ {
                    if j - 1 > at {
                        assert(before(model[at as int], model[j - 1]));
                        assert(!before(model[at as int], text@));
                    }
                }
            } else if i < at {
                assert(before(model[i], model[j - 1]));
            } else {
                assert(before(model[i - 1], model[j - 1]));
            }
        }
        assert forall|x: Seq<char>|
            #[trigger] after.contains(x) <==> model.contains(x) || x == text@ by {
            if model.contains(x) {
                let k = choose|k: int| 0 <= k < model.len() && model[k] == x;
                if k < at {
                    assert(after[k] == x);
                } else {
                    assert(after[k + 1] == x);
                }
            }
            if x == text@ {
                assert(after[at as int] == x);
            }
            if after.contains(x) {
                let k = choose|k: int| 0 <= k < after.len() && after[k] == x;
                if k < at {
                    assert(model[k] == x);
                } else if k > at {
                    assert(model[k - 1] == x);
                }
            }
        }
    }
}

/// The texts of a list in ascending order, each once.
pub fn sorted_texts(items: &Vec<String>) -> (r: Vec<String>)
    ensures
        ascending(views(r@)),
        same_texts(views(r@), views(items@)),
{
    let ghost model = views(items@);
    let mut out: Vec<String> = Vec::new();
    let mut i: usize = 0;
    proof {
        assert(views(out@) =~= Seq::<Seq<char>>::empty());
        assert(model.take(0) =~= Seq::<Seq<char>>::empty());
    }
    while i < items.len()
        invariant
            i <= items@.len(),
            model == views(items@),
            ascending(views(out@)),
            same_texts(views(out@), model.take(i as int)),
        decreases items.len() - i,
    {
        let ghost before_add = views(out@);
        add_sorted(&mut out, items[i].as_str());
        proof {
            let head = model.take(i as int);
            let next = model.take(i + 1);
            assert(next =~= head.push(model[i as int]));
            assert forall|x: Seq<char>| views(out@).contains(x) <==> #[trigger] next.contains(
                x,
            ) by {
                assert(before_add.contains(x) <==> head.contains(x));
                if next.contains(x) {
                    let k = choose|k: int| 0 <= k < next.len() && next[k] == x;
                    if k < i {
                        assert(head[k] == x);
                        assert(head.contains(x));
                    }
                }
                if head.contains(x) {
                    let k = choose|k: int| 0 <= k < head.len() && head[k] == x;
                    assert(next[k] == x);
                }
                assert(next[i as int] == model[i as int]);
            }
        }
        i += 1;
    }
    proof {
        assert(model.take(i as int) =~= model);
    }
    out
}

// Text maps.

/// A map from texts to texts, kept in the order of its keys.
#[derive(Debug, PartialEq, Eq)]
pub struct TextMap {
    entries: Vec<(String, String)>,
}

impl View for TextMap {
    type V = Seq<(Seq<char>, Seq<char>)>;

    closed spec fn view(&self) -> Seq<(Seq<char>, Seq<char>)> {
        views(self.entries@)
    }
}

/// The keys of a list of entries.
pub open spec fn keys_of(entries: Seq<(Seq<char>, Seq<char>)>) -> Seq<Seq<char>> {
    Seq::new(entries.len(), |i: int| entries[i].0)
}

/// The entries of a map: keys in ascending order.
pub open spec fn is_text_map(entries: Seq<(Seq<char>, Seq<char>)>) -> bool {
    ascending(keys_of(entries))
}

/// The number of keys before `key`.
pub open spec fn key_place(entries: Seq<(Seq<char>, Seq<char>)>, key: Seq<char>) -> nat
    decreases entries.len(),
{
    if entries.len() == 0 || !before(entries[0].0, key) {
        0
    } else {
        1 + key_place(entries.skip(1), key)
    }
}

/// The value of a key.
pub open spec fn map_get(entries: Seq<(Seq<char>, Seq<char>)>, key: Seq<char>) -> Option<Seq<char>> {
    let at = key_place(entries, key) as int;
    if at < entries.len() && entries[at].0 == key {
        Some(entries[at].1)
    } else {
        None
    }
}

/// The entries with a key's value set.
pub open spec fn map_set(
    entries: Seq<(Seq<char>, Seq<char>)>,
    key: Seq<char>,
    value: Seq<char>,
) -> Seq<(Seq<char>, Seq<char>)> {
    let at = key_place(entries, key) as int;
    if at < entries.len() && entries[at].0 == key {
        entries.update(at, (key, value))
    } else {
        entries.insert(at, (key, value))
    }
}

/// `key_place` splits an ascending list into the keys before `key` and the others.
pub proof fn lemma_key_place(entries: Seq<(Seq<char>, Seq<char>)>, key: Seq<char>)
    requires
        is_text_map(entries),
    ensures
        key_place(entries, key) <= entries.len(),
        forall|i: int|
            0 <= i < key_place(entries, key) ==> before((#[trigger] entries[i]).0, key),
        forall|i: int|
            key_place(entries, key) <= i < entries.len() ==> !before(
                (#[trigger] entries[i]).0,
                key,
            ),
    decreases entries.len(),
{
    let keys = keys_of(entries);
    if entries.len() > 0 {
        if before(entries[0].0, key) {
            let rest = entries.skip(1);
            assert forall|i: int, j: int| 0 <= i < j < keys_of(rest).len() implies before(
                #[trigger] keys_of(rest)[i],
                #[trigger] keys_of(rest)[j],
            ) by {
                assert(before(keys[i + 1], keys[j + 1]));
            }
            lemma_key_place(rest, key);
            assert forall|i: int| 0 <= i < key_place(entries, key) implies before(
                (#[trigger] entries[i]).0,
                key,
            ) by {
                if i > 0 {
                    assert(entries[i] == rest[i - 1]);
                }
            }
            assert forall|i: int|
                key_place(entries, key) <= i < entries.len() implies !before(
                (#[trigger] entries[i]).0,
                key,
            ) by {
                assert(entries[i] == rest[i - 1]);
            }
        } else {
            assert forall|i: int| 0 <= i < entries.len() implies !before(
                (#[trigger] entries[i]).0,
                key,
            ) by {
                if before(entries[i].0, key) && i > 0 {
                    assert(before(keys[0], keys[i]));
                    lemma_before_transitive(keys[0], keys[i], key);
                }
            }
        }
    }
}

/// Setting a value keeps the keys in order.
pub proof fn lemma_map_set(entries: Seq<(Seq<char>, Seq<char>)>, key: Seq<char>, value: Seq<char>)
    requires
        is_text_map(entries),
    ensures
        is_text_map(map_set(entries, key, value)),
{
    lemma_key_place(entries, key);
    let at = key_place(entries, key) as int;
    let keys = keys_of(entries);
    let after = map_set(entries, key, value);
    let new_keys = keys_of(after);
    if at < entries.len() && entries[at].0 == key {
        assert(new_keys =~= keys);
    } else {
        assert(new_keys =~= keys.insert(at, key));
        assert forall|i: int, j: int| 0 <= i < j < new_keys.len() implies before(
            #[trigger] new_keys[i],
            #[trigger] new_keys[j],
        ) by {
            if j < at {
                assert(before(keys[i], keys[j]));
            } else if j == at {
                assert(before(entries[i].0, key));
            } else if i == at {
                assert(!before(entries[j - 1].0, key));
                lemma_before_total(keys[j - 1], key);
                if keys[j - 1] == key && j - 1 > at {
                    assert(before(keys[at], keys[j - 1]));
                    assert(!before(entries[at].0, key));
                }
            } else if i < at {
                assert(before(keys[i], keys[j - 1]));
            } else {
                assert(before(keys[i - 1], keys[j - 1]));
            }
        }
    }
}

/// A key's value is the one that was set last; setting one key changes no other.
pub proof fn law_map_get_after_set(
    entries: Seq<(Seq<char>, Seq<char>)>,
    key: Seq<char>,
    value: Seq<char>,
    other: Seq<char>,
)
    requires
        is_text_map(entries),
    ensures
        map_get(map_set(entries, key, value), other) == if other == key {
            Some(value)
        } else {
            map_get(entries, other)
        },
{
    let after = map_set(entries, key, value);
    lemma_map_set(entries, key, value);
    lemma_key_place(entries, key);
    lemma_key_place(entries, other);
    lemma_key_place(after, other);
    let at = key_place(entries, key) as int;
    let found = entries.len() > at && entries[at].0 == key;
    lemma_before_total(key, other);
    lemma_before_total(key, key);
    let was = key_place(entries, other) as int;
    let now = key_place(after, other) as int;
    // The position of `other` among the new keys is its position among the old ones, shifted by
    // one where the new key stands before it.
    let shift: int = if !found && before(key, other) {
        1
    } else {
        0
    };
    if !found {
        assert forall|i: int| 0 <= i < after.len() implies (#[trigger] after[i]).0 == (if i < at {
            entries[i].0
        } else if i == at {
            key
        } else {
            entries[i - 1].0
        }) by {}
        if before(key, other) {
            if was < at {
                assert(before(entries[was].0, key));
                lemma_before_transitive(entries[was].0, key, other);
            }
        } else if before(other, key) {
            if at < was {
                assert(before(entries[at].0, other));
                lemma_before_transitive(entries[at].0, other, key);
            }
        }
    }
    assert forall|i: int| 0 <= i < was + shift implies before((#[trigger] after[i]).0, other) by {
        if !found && i > at {
            assert(before(entries[i - 1].0, other));
        } else if !found && i < at {
            assert(before(entries[i].0, other) || i >= was);
        } else if found {
            assert(before(entries[i].0, other));
        }
    }
    lemma_place_unique(after, other, was + shift);
}

proof fn lemma_place_unique(entries: Seq<(Seq<char>, Seq<char>)>, key: Seq<char>, at: int)
    requires
        0 <= at <= entries.len(),
        forall|i: int| 0 <= i < at ==> before((#[trigger] entries[i]).0, key),
        at < entries.len() ==> !before(entries[at].0, key),
    ensures
        key_place(entries, key) == at,
    decreases entries.len(),
{
    if at > 0 {
        assert(before(entries[0].0, key));
        let rest = entries.skip(1);
        assert forall|i: int| 0 <= i < at - 1 implies before((#[trigger] rest[i]).0, key) by {
            assert(rest[i] == entries[i + 1]);
        }
        lemma_place_unique(rest, key, at - 1);
    }
}

impl TextMap {
    /// The keys stand in ascending order.
    pub closed spec fn wf(&self) -> bool {
        is_text_map(self@)
    }

    /// The map with no entries.
    pub fn new() -> (r: TextMap)
        ensures
            r@ == Seq::<(Seq<char>, Seq<char>)>::empty(),
            r.wf(),
    {
        let r = TextMap { entries: Vec::new() };
        proof {
            assert(r@ =~= Seq::<(Seq<char>, Seq<char>)>::empty());
        }
        r
    }

    /// What is known of a map: its keys stand in ascending order.
    pub proof fn lemma_wf(&self)
        requires
            self.wf(),
        ensures
            is_text_map(self@),
    {
    }

    /// The number of entries.
    pub fn len(&self) -> (r: usize)
        ensures
            r == self@.len(),
    {
        self.entries.len()
    }

    /// The key at a position.
    pub fn key_at(&self, i: usize) -> (r: &String)
        requires
            i < self@.len(),
        ensures
            r@ == self@[i as int].0,
    {
        &self.entries[i].0
    }

    /// The value at a position.
    pub fn value_at(&self, i: usize) -> (r: &String)
        requires
            i < self@.len(),
        ensures
            r@ == self@[i as int].1,
    {
        &self.entries[i].1
    }

    fn find(&self, key: &str) -> (r: usize)
        ensures
            r == key_place(self@, key@),
            r <= self@.len(),
    {
        let ghost model = self@;
        let mut i: usize = 0;
        while i < self.entries.len()
            invariant
                i <= self.entries@.len(),
                model == views(self.entries@),
                forall|k: int| 0 <= k < i ==> before((#[trigger] model[k]).0, key@),
            decreases self.entries.len() - i,
        {
            if !text_before(self.entries[i].0.as_str(), key) {
                proof {
                    lemma_place_unique(model, key@, i as int);
                }
                return i;
            }
            proof {
                assert(before(model[i as int].0, key@));
            }
            i += 1;
        }
        proof {
            lemma_place_unique(model, key@, i as int);
        }
        i
    }

    /// The value of a key.
    pub fn get(&self, key: &str) -> (r: Option<&String>)
        ensures
            match r {
                Some(value) => map_get(self@, key@) == Some(value@),
                None => map_get(self@, key@) is None,
            },
    {
        let at = self.find(key);
        if at < self.entries.len() && same(self.entries[at].0.as_str(), key) {
            Some(&self.entries[at].1)
        } else {
            None
        }
    }

    /// Sets the value of a key.
    pub fn insert(&mut self, key: String, value: String)
        requires
            old(self).wf(),
        ensures
            final(self).wf(),
            final(self)@ == map_set(old(self)@, key@, value@),
    {
        let at = self.find(key.as_str());
        let ghost model = self@;
        proof {
            lemma_map_set(model, key@, value@);
        }
        if at < self.entries.len() && same(self.entries[at].0.as_str(), key.as_str()) {
            self.entries.set(at, (key, value));
            proof {
                assert(self@ =~= model.update(at as int, (key@, value@)));
            }
        } else {
            self.entries.insert(at, (key, value));
            proof {
                assert(self@ =~= model.insert(at as int, (key@, value@)));
            }
        }
    }

    /// The entries in the order of their keys.
    pub fn entries(&self) -> (r: &Vec<(String, String)>)
        requires
            self.wf(),
        ensures
            views(r@) == self@,
            is_text_map(views(r@)),
    {
        &self.entries
    }

    /// Removes every entry.
    pub fn clear(&mut self)
        ensures
            final(self)@ == Seq::<(Seq<char>, Seq<char>)>::empty(),
            final(self).wf(),
    {
        self.entries = Vec::new();
        proof {
            assert(self@ =~= Seq::<(Seq<char>, Seq<char>)>::empty());
        }
    }
}

impl Clone for TextMap {
    fn clone(&self) -> (r: Self)
        ensures
            r@ == self@,
            self.wf() ==> r.wf(),
    {
        let mut entries: Vec<(String, String)> = Vec::new();
        let ghost model = views(self.entries@);
        let mut i: usize = 0;
        while i < self.entries.len()
            invariant
                i <= self.entries@.len(),
                model == views(self.entries@),
                views(entries@) == model.take(i as int),
            decreases self.entries.len() - i,
        {
            let pair = (self.entries[i].0.clone(), self.entries[i].1.clone());
            proof {
                assert(model.take(i as int).push(pair@) =~= model.take(i + 1));
            }
            entries.push(pair);
            i += 1;
        }
        proof {
            assert(model.take(i as int) =~= model);
        }
        TextMap { entries }
    }
}

} // verus!
