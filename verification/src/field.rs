//! The executable form of a selector and its tests on a structure.

use vstd::prelude::*;

use crate::body::texts;
use crate::body::Item;
use crate::model::Selector;

verus! {

/// One step of a deletion path: the name of a field, and labels that tell
/// blocks of that name apart.
#[derive(Debug, PartialEq, Eq)]
pub struct Field {
    pub name: String,
    pub labels: Vec<String>,
}

impl View for Field {
    type V = Selector;

    open spec fn view(&self) -> Selector {
        Selector { name: self.name@, labels: texts(self.labels@) }
    }
}

/// The selectors that a list of fields stands for.
pub open spec fn selectors(fields: Seq<Field>) -> Seq<Selector> {
    fields.map_values(|f: Field| f@)
}

impl Clone for Field {
    fn clone(&self) -> (copy: Field)
        ensures
            copy@ == self@,
    {
        Field { name: self.name.clone(), labels: self.labels.clone() }
    }
}

/// Whether some label of `wanted` is also a label of `carried`.
pub fn share_label(wanted: &Vec<String>, carried: &Vec<String>) -> (found: bool)
    ensures
        found == crate::model::share_label(texts(wanted@), texts(carried@)),
{
    let mut i: usize = 0;
    while i < wanted.len()
        invariant
            i <= wanted.len(),
            forall|a: int, b: int|
                #![trigger texts(wanted@)[a], texts(carried@)[b]]
                0 <= a < i && 0 <= b < carried.len() ==> texts(wanted@)[a] != texts(carried@)[b],
        decreases wanted.len() - i,
    {
        let mut j: usize = 0;
        while j < carried.len()
            invariant
                i < wanted.len(),
                j <= carried.len(),
                forall|b: int|
                    #![trigger texts(carried@)[b]]
                    0 <= b < j ==> texts(wanted@)[i as int] != texts(carried@)[b],
            decreases carried.len() - j,
        {
            if wanted[i] == carried[j] {
                assert(texts(wanted@)[i as int] == texts(carried@)[j as int]);
                return true;
            }
            j += 1;
        }
        i += 1;
    }
    false
}

impl Field {
    /// Whether this field deletes `item` from the body it is applied to,
    /// where `last` says that no field follows it on the path.
    pub fn removes(&self, item: &Item, last: bool) -> (gone: bool)
        ensures
            gone == self@.removes(item@, last),
    {
        match item {
            Item::Attribute { key } => *key == self.name,
            Item::Block { ident, labels } => {
                if *ident == self.name {
                    if self.labels.is_empty() {
                        last
                    } else {
                        share_label(&self.labels, labels)
                    }
                } else {
                    false
                }
            },
        }
    }

    /// Whether the path goes on inside `item`, given that this field left it
    /// in place.
    pub fn enters(&self, item: &Item) -> (inside: bool)
        ensures
            inside == self@.enters(item@),
    {
        match item {
            Item::Attribute { .. } => false,
            Item::Block { ident, .. } => *ident == self.name && self.labels.is_empty(),
        }
    }
}

} // verus!
