//! Attributes: named metadata attached to a variable, and the cache that a
//! variable keeps of them.

use vstd::prelude::*;
use vstd::hash_map::StringHashMap;

verus! {

/// The record kept of one attribute: its name, the tag of its value's type,
/// and the variable and scope that own it.
#[derive(Debug)]
pub struct Attribute {
    pub name: String,
    pub attrtype: i32,
    pub id: i32,
    pub var_id: i32,
    pub file_id: i32,
}

impl Clone for Attribute {
    fn clone(&self) -> (r: Self)
        ensures
            r == *self,
    {
        Attribute {
            name: self.name.clone(),
            attrtype: self.attrtype,
            id: self.id,
            var_id: self.var_id,
            file_id: self.file_id,
        }
    }
}

/// An `Attribute` as a mathematical value.
pub struct AttributeView {
    pub name: Seq<char>,
    pub attrtype: i32,
    pub id: i32,
    pub var_id: i32,
    pub file_id: i32,
}

impl View for Attribute {
    type V = AttributeView;

    open spec fn view(&self) -> AttributeView {
        AttributeView {
            name: self.name@,
            attrtype: self.attrtype,
            id: self.id,
            var_id: self.var_id,
            file_id: self.file_id,
        }
    }
}

/// The cache that holds the listed attributes, each under its name. Where
/// two share a name, the one listed later stays.
pub open spec fn cache_of(listed: Seq<Attribute>) -> Map<Seq<char>, Attribute>
    decreases listed.len(),
{
    if listed.len() == 0 {
        Map::empty()
    } else {
        cache_of(listed.drop_last()).insert(listed.last().name@, listed.last())
    }
}

/// No two of the listed attributes share a name.
pub open spec fn distinct_names(listed: Seq<Attribute>) -> bool {
    forall|i: int, j: int|
        0 <= i < j < listed.len() ==> (#[trigger] listed[i]).name@ != (#[trigger] listed[j]).name@
}

/// The cache holds exactly the names that are listed.
pub proof fn lemma_cache_names(listed: Seq<Attribute>)
    ensures
        cache_of(listed).dom().finite(),
        forall|name: Seq<char>| #[trigger]
            cache_of(listed).contains_key(name) <==> exists|i: int|
                0 <= i < listed.len() && (#[trigger] listed[i]).name@ == name,
    decreases listed.len(),
{
    if listed.len() > 0 {
        let front = listed.drop_last();
        lemma_cache_names(front);
        assert forall|name: Seq<char>| #[trigger]
            cache_of(listed).contains_key(name) <==> exists|i: int|
                0 <= i < listed.len() && (#[trigger] listed[i]).name@ == name by {
            if cache_of(listed).contains_key(name) {
                if name == listed.last().name@ {
                    assert(listed[listed.len() - 1].name@ == name);
                } else {
                    assert(cache_of(front).contains_key(name));
                    let i = choose|i: int| 0 <= i < front.len() && (#[trigger] front[i]).name@ == name;
                    assert(listed[i].name@ == name);
                }
            }
            if exists|i: int| 0 <= i < listed.len() && (#[trigger] listed[i]).name@ == name {
                let i = choose|i: int| 0 <= i < listed.len() && (#[trigger] listed[i]).name@ == name;
                if i < front.len() {
                    assert(front[i].name@ == name);
                    assert(cache_of(front).contains_key(name));
                }
            }
        }
    }
}

/// Where no two listed attributes share a name, the cache holds as many
/// attributes as are listed, and each of them under its name.
pub proof fn lemma_cache_of_distinct(listed: Seq<Attribute>)
    requires
        distinct_names(listed),
    ensures
        cache_of(listed).dom().finite(),
        cache_of(listed).len() == listed.len(),
        forall|i: int|
            0 <= i < listed.len() ==> cache_of(listed).contains_key((#[trigger] listed[i]).name@)
                && cache_of(listed)[listed[i].name@] == listed[i],
    decreases listed.len(),
{
    if listed.len() > 0 {
        let front = listed.drop_last();
        let last = listed.last();
        assert(distinct_names(front)) by {
            assert forall|i: int, j: int| 0 <= i < j < front.len() implies (#[trigger] front[i]).name@
                != (#[trigger] front[j]).name@ by {
                assert(listed[i].name@ != listed[j].name@);
            }
        }
        lemma_cache_of_distinct(front);
        lemma_cache_names(front);
        assert(!cache_of(front).contains_key(last.name@)) by {
            if cache_of(front).contains_key(last.name@) {
                let i = choose|i: int| 0 <= i < front.len() && (#[trigger] front[i]).name@ == last.name@;
                assert(listed[i].name@ != listed[listed.len() - 1].name@);
            }
        }
        assert forall|i: int| 0 <= i < listed.len() implies cache_of(listed).contains_key(
            (#[trigger] listed[i]).name@,
        ) && cache_of(listed)[listed[i].name@] == listed[i] by {
            if i < front.len() {
                assert(front[i] == listed[i]);
                assert(listed[i].name@ != listed[listed.len() - 1].name@);
            }
        }
    }
}

/// Builds the cache of the listed attributes from nothing.
pub fn build_cache(listed: &Vec<Attribute>) -> (cache: StringHashMap<Attribute>)
    ensures
        cache@ == cache_of(listed@),
{
    let mut cache: StringHashMap<Attribute> = StringHashMap::new();
    let mut i: usize = 0;
    while i < listed.len()
        invariant
            0 <= i <= listed.len(),
            cache@ == cache_of(listed@.take(i as int)),
        decreases listed.len() - i,
    {
        assert(listed@.take(i as int + 1).drop_last() =~= listed@.take(i as int));
        let attribute = listed[i].clone();
        cache.insert(attribute.name.clone(), attribute);
        i += 1;
    }
    assert(listed@.take(i as int) =~= listed@);
    cache
}

} // verus!
