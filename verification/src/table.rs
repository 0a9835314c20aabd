//! The aggregation table: one accumulator per distinct product key.
//! The storage is hashbrown's hash map with owned byte-string keys; the
//! library reads and writes it only through the contracts below, all stated
//! over the named contents `prod_view`.

use vstd::prelude::*;

use crate::accum::ProductData;

verus! {

/// The aggregation table. Holds exactly one accumulator per distinct key.
#[verifier::external_body]
pub struct ProdMap {
    table: hashbrown::HashMap<Box<[u8]>, ProductData>,
}

/// The mathematical contents of an aggregation table.
pub type ProdView = Map<Seq<u8>, ProductData>;

/// What the table holds: the map from key bytes to accumulator.
pub uninterp spec fn prod_view(m: ProdMap) -> Map<Seq<u8>, ProductData>;

impl ProdMap {
    /// Relies on `hashbrown::HashMap::new`: a new table is empty.
    #[verifier::external_body]
    pub fn new() -> (out: ProdMap)
        ensures
            prod_view(out) == ProdView::empty(),
    {
        ProdMap { table: hashbrown::HashMap::new() }
    }

    /// Relies on `hashbrown::HashMap::get`: the value stored under the key,
    /// if the key is present; key lookup compares the key bytes.
    #[verifier::external_body]
    pub fn get_copy(&self, key: &[u8]) -> (r: Option<ProductData>)
        ensures
            match r {
                Some(v) => prod_view(*self).dom().contains(key@) && v == prod_view(*self)[key@],
                None => !prod_view(*self).dom().contains(key@),
            },
    {
        self.table.get(key).copied()
    }

    /// Relies on `hashbrown::HashMap::insert`: stores the value under the
    /// key, replacing the value any equal key held before.
    #[verifier::external_body]
    pub fn insert(&mut self, key: &[u8], value: ProductData)
        ensures
            prod_view(*final(self)) == prod_view(*old(self)).insert(key@, value),
    {
        self.table.insert(key.into(), value);
    }

    /// Relies on `hashbrown::HashMap::iter`: yields every stored pair
    /// exactly once, in no specified order.
    #[verifier::external_body]
    pub fn to_pairs(&self) -> (r: Vec<(Vec<u8>, ProductData)>)
        ensures
            forall|i: int, j: int| 0 <= i < j < r@.len() ==> r@[i].0@ != r@[j].0@,
            forall|i: int|
                0 <= i < r@.len() ==> prod_view(*self).dom().contains(#[trigger] (r@[i].0@))
                    && r@[i].1 == prod_view(*self)[r@[i].0@],
            forall|k: Seq<u8>|
                #[trigger] prod_view(*self).dom().contains(k) ==> exists|i: int|
                    0 <= i < r@.len() && (#[trigger] (r@[i].0@)) == k,
    {
        self.table.iter().map(|(k, v)| (k.to_vec(), *v)).collect()
    }
}

/// Every accumulator of the table is valid.
pub open spec fn wf_table(m: Map<Seq<u8>, ProductData>) -> bool {
    forall|k: Seq<u8>|
        #[trigger] m.dom().contains(k) ==> crate::accum::pd_wf(m[k]) && m[k].count >= 1
}

} // verus!
