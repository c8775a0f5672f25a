//! The attributes of a request: a map from logical names, such as
//! `req.method` or `req.headers.x-user-id`, to values.

use vstd::prelude::*;
use crate::counter::pairs_map;

verus! {

/// No name stands twice in the list.
pub open spec fn names_distinct(pairs: Seq<(String, String)>) -> bool {
    forall|i: int, j: int|
        0 <= i < j < pairs.len() ==> (#[trigger] pairs[i]).0@ != (#[trigger] pairs[j]).0@
}

/// The names of `pairs_map` are the names in the list.
pub proof fn lemma_pairs_map_names(pairs: Seq<(String, String)>, name: Seq<char>)
    ensures
        pairs_map(pairs).contains_key(name) <==> exists|i: int|
            0 <= i < pairs.len() && (#[trigger] pairs[i]).0@ == name,
    decreases pairs.len(),
{
    if pairs.len() > 0 {
        let earlier = pairs.drop_last();
        lemma_pairs_map_names(earlier, name);
        if pairs_map(pairs).contains_key(name) {
            if pairs.last().0@ == name {
                assert(pairs[pairs.len() - 1].0@ == name);
            } else {
                let i = choose|i: int| 0 <= i < earlier.len() && (#[trigger] earlier[i]).0@ == name;
                assert(pairs[i].0@ == name);
            }
        }
        if exists|i: int| 0 <= i < pairs.len() && (#[trigger] pairs[i]).0@ == name {
            let i = choose|i: int| 0 <= i < pairs.len() && (#[trigger] pairs[i]).0@ == name;
            if i < pairs.len() - 1 {
                assert(earlier[i].0@ == name);
            }
        }
    }
}

/// Where no name stands twice, `pairs_map` gives each name the value that
/// stands beside it.
pub proof fn lemma_pairs_map_value(pairs: Seq<(String, String)>, index: int)
    requires
        names_distinct(pairs),
        0 <= index < pairs.len(),
    ensures
        pairs_map(pairs).contains_key(pairs[index].0@),
        pairs_map(pairs)[pairs[index].0@] == pairs[index].1@,
    decreases pairs.len(),
{
    let earlier = pairs.drop_last();
    if index < pairs.len() - 1 {
        assert(names_distinct(earlier)) by {
            assert forall|i: int, j: int| 0 <= i < j < earlier.len() implies (#[trigger] earlier[i]).0@
                != (#[trigger] earlier[j]).0@ by {
                assert(pairs[i].0@ != pairs[j].0@);
            }
        }
        lemma_pairs_map_value(earlier, index);
        assert(earlier[index] == pairs[index]);
        assert(pairs[index].0@ != pairs[pairs.len() - 1].0@);
    }
}

/// Where no name stands twice, a new value beside a name of the list gives
/// that name the value and changes no other.
pub proof fn lemma_pairs_map_update(pairs: Seq<(String, String)>, index: int, pair: (String, String))
    requires
        names_distinct(pairs),
        0 <= index < pairs.len(),
        pair.0@ == pairs[index].0@,
    ensures
        names_distinct(pairs.update(index, pair)),
        pairs_map(pairs.update(index, pair)) == pairs_map(pairs).insert(pair.0@, pair.1@),
{
    let after = pairs.update(index, pair);
    let expected = pairs_map(pairs).insert(pair.0@, pair.1@);
    assert(names_distinct(after)) by {
        assert forall|a: int, b: int| 0 <= a < b < after.len() implies (#[trigger] after[a]).0@
            != (#[trigger] after[b]).0@ by {
            assert(pairs[a].0@ != pairs[b].0@);
        }
    }
    assert forall|name: Seq<char>| #[trigger] pairs_map(after).contains_key(name) == expected.contains_key(
        name,
    ) by {
        lemma_pairs_map_names(after, name);
        lemma_pairs_map_names(pairs, name);
        if pairs_map(after).contains_key(name) {
            let k = choose|k: int| 0 <= k < after.len() && (#[trigger] after[k]).0@ == name;
            assert(pairs[k].0@ == name);
        }
        if pairs_map(pairs).contains_key(name) {
            let k = choose|k: int| 0 <= k < pairs.len() && (#[trigger] pairs[k]).0@ == name;
            assert(after[k].0@ == name);
        }
        if name == pair.0@ {
            assert(after[index].0@ == name);
        }
    }
    assert forall|name: Seq<char>| #[trigger] pairs_map(after).contains_key(name) implies pairs_map(after)[name]
        == expected[name] by {
        lemma_pairs_map_names(after, name);
        let k = choose|k: int| 0 <= k < after.len() && (#[trigger] after[k]).0@ == name;
        lemma_pairs_map_value(after, k);
        if k != index {
            assert(pairs[k] == after[k]);
            lemma_pairs_map_value(pairs, k);
            assert(pairs[k].0@ != pairs[index].0@);
        }
    }
    assert(pairs_map(after) =~= expected);
}

/// A pair with a new name behind the list gives that name its value and
/// leaves no name twice.
pub proof fn lemma_pairs_map_push(pairs: Seq<(String, String)>, pair: (String, String))
    requires
        names_distinct(pairs),
        forall|k: int| 0 <= k < pairs.len() ==> (#[trigger] pairs[k]).0@ != pair.0@,
    ensures
        names_distinct(pairs.push(pair)),
        pairs_map(pairs.push(pair)) == pairs_map(pairs).insert(pair.0@, pair.1@),
{
    let after = pairs.push(pair);
    assert(after.drop_last() =~= pairs);
    assert forall|a: int, b: int| 0 <= a < b < after.len() implies (#[trigger] after[a]).0@
        != (#[trigger] after[b]).0@ by {
        if b < pairs.len() {
            assert(pairs[a].0@ != pairs[b].0@);
        } else {
            assert(pairs[a].0@ != pair.0@);
        }
    }
}

/// The attributes of one request. No name is held twice.
#[derive(Clone, Debug, PartialEq, Eq)]
pub struct AttributeMap {
    pub(crate) entries: Vec<(String, String)>,
}

impl View for AttributeMap {
    type V = Map<Seq<char>, Seq<char>>;

    closed spec fn view(&self) -> Map<Seq<char>, Seq<char>> {
        pairs_map(self.entries@)
    }
}

impl AttributeMap {
    /// No name is held twice.
    pub closed spec fn wf(&self) -> bool {
        names_distinct(self.entries@)
    }

    /// The map without attributes.
    pub fn new() -> (attributes: AttributeMap)
        ensures
            attributes.wf(),
            attributes@ == Map::<Seq<char>, Seq<char>>::empty(),
    {
        AttributeMap { entries: Vec::new() }
    }

    /// Gives `name` the value `value`, in place of the value that it had, if
    /// it had one.
    pub fn insert(&mut self, name: String, value: String)
        requires
            old(self).wf(),
        ensures
            final(self).wf(),
            final(self)@ == old(self)@.insert(name@, value@),
    {
        let mut i: usize = 0;
        while i < self.entries.len()
            invariant
                i <= self.entries.len(),
                *self == *old(self),
                self.wf(),
                forall|k: int| 0 <= k < i ==> (#[trigger] self.entries@[k]).0@ != name@,
            decreases self.entries.len() - i,
        {
            if self.entries[i].0 == name {
                proof {
                    lemma_pairs_map_update(self.entries@, i as int, (name, value));
                }
                self.entries.set(i, (name, value));
                return ;
            }
            i += 1;
        }
        proof {
            lemma_pairs_map_push(self.entries@, (name, value));
        }
        self.entries.push((name, value));
    }

    /// The value of `name`, if it has one.
    pub fn get(&self, name: &String) -> (value: Option<&String>)
        requires
            self.wf(),
        ensures
            match value {
                Some(found) => self@.contains_key(name@) && self@[name@] == found@,
                None => !self@.contains_key(name@),
            },
    {
        let mut i: usize = 0;
        while i < self.entries.len()
            invariant
                i <= self.entries.len(),
                self.wf(),
                forall|k: int| 0 <= k < i ==> (#[trigger] self.entries@[k]).0@ != name@,
            decreases self.entries.len() - i,
        {
            if self.entries[i].0 == *name {
                proof {
                    lemma_pairs_map_value(self.entries@, i as int);
                }
                return Some(&self.entries[i].1);
            }
            i += 1;
        }
        proof {
            lemma_pairs_map_names(self.entries@, name@);
        }
        None
    }

    /// How many names have a value.
    pub fn len(&self) -> (n: usize)
        requires
            self.wf(),
        ensures
            self@.dom().finite(),
            n == self@.dom().len(),
    {
        proof {
            lemma_pairs_map_len(self.entries@);
        }
        self.entries.len()
    }
}

/// Where no name stands twice, `pairs_map` has as many names as the list has
/// pairs.
pub proof fn lemma_pairs_map_len(pairs: Seq<(String, String)>)
    requires
        names_distinct(pairs),
    ensures
        pairs_map(pairs).dom().finite(),
        pairs_map(pairs).dom().len() == pairs.len(),
    decreases pairs.len(),
{
    if pairs.len() > 0 {
        let earlier = pairs.drop_last();
        assert(names_distinct(earlier)) by {
            assert forall|i: int, j: int| 0 <= i < j < earlier.len() implies (#[trigger] earlier[i]).0@
                != (#[trigger] earlier[j]).0@ by {
                assert(pairs[i].0@ != pairs[j].0@);
            }
        }
        lemma_pairs_map_len(earlier);
        let name = pairs.last().0@;
        lemma_pairs_map_names(earlier, name);
        if pairs_map(earlier).contains_key(name) {
            let i = choose|i: int| 0 <= i < earlier.len() && (#[trigger] earlier[i]).0@ == name;
            assert(pairs[i].0@ != pairs[pairs.len() - 1].0@);
        }
        assert(pairs_map(pairs).dom() =~= pairs_map(earlier).dom().insert(name));
    }
}

/// The lowercase form of a text, as `str::to_lowercase` gives it.
pub uninterp spec fn lowercase(text: Seq<char>) -> Seq<char>;

/// Every character of the text is an ASCII character.
pub open spec fn is_ascii_text(text: Seq<char>) -> bool {
    forall|i: int| 0 <= i < text.len() ==> '\0' <= #[trigger] text[i] <= '\u{7f}'
}

/// The lowercase form of an ASCII character: the letters `A` to `Z` become
/// `a` to `z`, and every other character stays.
pub open spec fn ascii_lower(character: char) -> char {
    if 'A' <= character <= 'Z' {
        ((character as u32 + 32) as u32) as char
    } else {
        character
    }
}

/// The lowercase form of an ASCII text, character by character.
pub open spec fn ascii_lowercase(text: Seq<char>) -> Seq<char> {
    Seq::new(text.len(), |i: int| ascii_lower(text[i]))
}

/// The lowercase form of a text: letter by letter for an ASCII text, and
/// what `str::to_lowercase` gives for any other.
pub open spec fn lowered(text: Seq<char>) -> Seq<char> {
    if is_ascii_text(text) {
        ascii_lowercase(text)
    } else {
        lowercase(text)
    }
}

/// `str::to_lowercase`: the lowercase equivalent of the text as a new
/// `String`, a function of the text alone. Of an ASCII text it is the text
/// with `A` to `Z` as `a` to `z` and every other character as it is: what
/// `to_ascii_lowercase` gives, beside which std sets `to_lowercase` as the
/// function that lowercases other characters as well.
#[verifier::external_body]
pub(crate) fn to_lowercase(text: &str) -> (lowered: String)
    ensures
        lowered@ == lowercase(text@),
        is_ascii_text(text@) ==> lowered@ == ascii_lowercase(text@),
{
    text.to_lowercase()
}

/// An ASCII text without the letters `A` to `Z` is its own lowercase form.
pub proof fn lemma_lowered_stays(text: Seq<char>)
    requires
        is_ascii_text(text),
        forall|i: int| 0 <= i < text.len() ==> !('A' <= #[trigger] text[i] <= 'Z'),
    ensures
        lowered(text) == text,
{
    assert(ascii_lowercase(text) =~= text);
}

/// The fields of a request as texts.
pub open spec fn fields_view(fields: Seq<(String, String)>) -> Seq<(Seq<char>, Seq<char>)> {
    fields.map_values(|field: (String, String)| (field.0@, field.1@))
}

/// The logical name under which a field of a request is kept. A field
/// whose name begins with `:` is a field of the protocol: of these the
/// method is kept, as `req.method`, and the others are dropped. Every
/// other field is a header, kept as `req.headers.` and its name in
/// lowercase.
pub open spec fn attribute_name(field: Seq<char>) -> Option<Seq<char>> {
    if field.len() > 0 && field[0] == ':' {
        if field == ":method"@ {
            Some("req.method"@)
        } else {
            None
        }
    } else {
        Some("req.headers."@ + lowered(field))
    }
}

/// The attributes of a request with the given fields. Where two fields
/// are kept under one name, the later one counts.
pub open spec fn attributes_of(fields: Seq<(Seq<char>, Seq<char>)>) -> Map<Seq<char>, Seq<char>>
    decreases fields.len(),
{
    if fields.len() == 0 {
        Map::empty()
    } else {
        let earlier = attributes_of(fields.drop_last());
        match attribute_name(fields.last().0) {
            Some(name) => earlier.insert(name, fields.last().1),
            None => earlier,
        }
    }
}

} // verus!
