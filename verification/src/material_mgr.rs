use vstd::prelude::*;
use vstd::hash_map::StringHashMap;

verus! {

broadcast use vstd::string::to_string_from_display_ensures_for_str;

/// Opaque handle to a material registered with a [`MaterialMgr`]: the
/// position of the material in the order of registration.
#[derive(Clone, Copy, Debug)]
pub struct MaterialId(usize);

impl View for MaterialId {
    type V = usize;

    closed spec fn view(&self) -> usize {
        self.0
    }
}

impl MaterialId {
    /// The handle of the material at position `id`.
    pub fn new(id: usize) -> (r: Self)
        ensures
            r@ == id,
    {
        MaterialId(id)
    }

    /// The position that this handle designates.
    pub fn as_usize(&self) -> (r: usize)
        ensures
            r == self@,
    {
        self.0
    }
}

/// The abstract content of a material manager: the materials in order of
/// registration, and the names given to some of them.
pub struct MaterialTable<M> {
    pub materials: Seq<M>,
    pub names: Map<Seq<char>, usize>,
}

impl<M> MaterialTable<M> {
    /// Every name refers to a registered material.
    pub open spec fn wf(self) -> bool {
        forall|n: Seq<char>| #[trigger] self.names.contains_key(n) ==> self.names[n] < self.materials.len()
    }

    /// The handle that the next registered material receives.
    pub open spec fn next_id(self) -> nat {
        self.materials.len()
    }

    /// The material that the handle position `id` designates, if any.
    pub open spec fn get(self, id: nat) -> Option<M> {
        if id < self.materials.len() {
            Some(self.materials[id as int])
        } else {
            None
        }
    }

    /// The table after registering `mat`, under `name` if one is given.
    pub open spec fn add(self, mat: M, name: Option<Seq<char>>) -> MaterialTable<M> {
        MaterialTable {
            materials: self.materials.push(mat),
            names: match name {
                Some(n) => self.names.insert(n, self.next_id() as usize),
                None => self.names,
            },
        }
    }
}

/// The characters of an optional name.
pub open spec fn name_of(name: Option<&str>) -> Option<Seq<char>> {
    match name {
        Some(n) => Some(n@),
        None => None,
    }
}

/// Registry of materials, addressed by [`MaterialId`] and optionally named.
pub struct MaterialMgr<M> {
    materials: Vec<M>,
    keys: StringHashMap<MaterialId>,
}

impl<M> View for MaterialMgr<M> {
    type V = MaterialTable<M>;

    closed spec fn view(&self) -> MaterialTable<M> {
        MaterialTable { materials: self.materials@, names: self.keys@.map_values(|id: MaterialId| id@) }
    }
}

impl<M> MaterialMgr<M> {
    /// A manager with no material.
    pub fn new() -> (r: Self)
        ensures
            r@.materials == Seq::<M>::empty(),
            r@.names == Map::<Seq<char>, usize>::empty(),
    {
        let r = MaterialMgr { materials: Vec::new(), keys: StringHashMap::new() };
        assert(r@.names =~= Map::<Seq<char>, usize>::empty());
        r
    }

    /// Registers `mat`, under `name` if one is given, and returns its handle.
    /// A name given again now designates the new material.
    pub fn add(&mut self, mat: M, name: Option<&str>) -> (id: MaterialId)
        ensures
            id@ == old(self)@.next_id(),
            final(self)@ == old(self)@.add(mat, name_of(name)),
    {
        let id = MaterialId::new(self.materials.len());
        self.materials.push(mat);
        match name {
            Some(n) => {
                let ghost before = self.keys@;
                self.keys.insert(n.to_string(), id);
                assert(self.keys@.map_values(|i: MaterialId| i@) =~= before.map_values(
                    |i: MaterialId| i@,
                ).insert(n@, id@));
            },
            None => {},
        }
        id
    }

    /// The material that `id` designates, if it was registered here.
    pub fn get_from_id(&self, id: MaterialId) -> (r: Option<&M>)
        ensures
            match r {
                Some(m) => self@.get(id@ as nat) == Some(*m),
                None => self@.get(id@ as nat) is None,
            },
    {
        let i = id.as_usize();
        if i < self.materials.len() {
            Some(&self.materials[i])
        } else {
            None
        }
    }
}

/// A material that has just been registered is found at the handle that its
/// registration returned.
pub proof fn lemma_get_after_add<M>(t: MaterialTable<M>, mat: M, name: Option<Seq<char>>)
    ensures
        t.add(mat, name).get(t.next_id()) == Some(mat),
{
}

/// Registering a material leaves every handle given out before it designating
/// the same material as before.
pub proof fn lemma_add_keeps_earlier<M>(t: MaterialTable<M>, mat: M, name: Option<Seq<char>>, id: nat)
    requires
        id < t.next_id(),
    ensures
        t.add(mat, name).get(id) == t.get(id),
{
}

/// Handles are given out in order, one per registration.
pub proof fn lemma_ids_sequential<M>(t: MaterialTable<M>, mat: M, name: Option<Seq<char>>)
    ensures
        t.add(mat, name).next_id() == t.next_id() + 1,
{
}

/// A handle designates a material exactly when it has been given out.
pub proof fn lemma_get_defined<M>(t: MaterialTable<M>, id: nat)
    ensures
        t.get(id) is Some <==> id < t.next_id(),
{
}

/// A name given with a registration designates the new material, and no other
/// name changes.
pub proof fn lemma_name_after_add<M>(t: MaterialTable<M>, mat: M, n: Seq<char>, other: Seq<char>)
    requires
        t.next_id() <= usize::MAX,
    ensures
        t.add(mat, Some(n)).names[n] == t.next_id(),
        t.add(mat, Some(n)).get(t.add(mat, Some(n)).names[n] as nat) == Some(mat),
        other != n ==> t.add(mat, Some(n)).names.contains_key(other) == t.names.contains_key(other),
        other != n ==> t.add(mat, Some(n)).names[other] == t.names[other],
        t.add(mat, None).names == t.names,
{
}

/// Every name designates a registered material, from the empty manager on and
/// through every registration.
pub proof fn lemma_names_resolve<M>(t: MaterialTable<M>, mat: M, name: Option<Seq<char>>, n: Seq<char>)
    requires
        t.wf(),
        t.next_id() <= usize::MAX,
    ensures
        t.names.contains_key(n) ==> t.get(t.names[n] as nat) is Some,
        t.add(mat, name).wf(),
        (MaterialTable { materials: Seq::<M>::empty(), names: Map::<Seq<char>, usize>::empty() }).wf(),
{
}

} // verus!
