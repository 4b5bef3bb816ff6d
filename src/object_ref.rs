use vstd::prelude::*;

verus! {

/// The identity of a resource as a mathematical value: kind, namespace
/// (empty for cluster-scoped objects) and name.
pub type RefKey = (Seq<char>, Seq<char>, Seq<char>);

/// Identity of a resource: two objects with equal references are the same
/// logical entity.
#[derive(Debug, Eq)]
pub struct ObjectRef {
    pub kind: String,
    pub namespace: String,
    pub name: String,
}

/// The metadata of a resource snapshot that the runtime reads.
#[derive(Debug, PartialEq, Eq)]
pub struct ObjectMeta {
    pub name: String,
    pub namespace: String,
    /// Opaque version token, compared only for staleness.
    pub resource_version: String,
    /// Set once deletion of the object has been requested.
    pub deletion_timestamp: Option<String>,
    /// Pending finalizer tokens.
    pub finalizers: Vec<String>,
}

/// A full snapshot of a resource as delivered by the event source.
#[derive(Debug, PartialEq, Eq)]
pub struct Object {
    pub kind: String,
    pub metadata: ObjectMeta,
    /// Key/value payload of the object.
    pub data: Vec<(String, String)>,
}

/// A snapshot as a mathematical value.
pub ghost struct ObjectView {
    pub kind: Seq<char>,
    pub name: Seq<char>,
    pub namespace: Seq<char>,
    pub resource_version: Seq<char>,
    pub deletion_timestamp: Option<Seq<char>>,
    pub finalizers: Seq<Seq<char>>,
    pub data: Seq<(Seq<char>, Seq<char>)>,
}

impl View for ObjectRef {
    type V = RefKey;

    open spec fn view(&self) -> RefKey {
        (self.kind@, self.namespace@, self.name@)
    }
}

pub open spec fn strings_view(s: Seq<String>) -> Seq<Seq<char>> {
    s.map_values(|x: String| x@)
}

pub open spec fn pairs_view(s: Seq<(String, String)>) -> Seq<(Seq<char>, Seq<char>)> {
    s.map_values(|p: (String, String)| (p.0@, p.1@))
}

pub open spec fn opt_string_view(s: Option<String>) -> Option<Seq<char>> {
    match s {
        Some(t) => Some(t@),
        None => None,
    }
}

impl View for Object {
    type V = ObjectView;

    open spec fn view(&self) -> ObjectView {
        ObjectView {
            kind: self.kind@,
            name: self.metadata.name@,
            namespace: self.metadata.namespace@,
            resource_version: self.metadata.resource_version@,
            deletion_timestamp: opt_string_view(self.metadata.deletion_timestamp),
            finalizers: strings_view(self.metadata.finalizers@),
            data: pairs_view(self.data@),
        }
    }
}

/// The identity of an object.
pub open spec fn ref_of(o: ObjectView) -> RefKey {
    (o.kind, o.namespace, o.name)
}

fn clone_strings(v: &Vec<String>) -> (r: Vec<String>)
    ensures
        strings_view(r@) == strings_view(v@),
{
    let mut r: Vec<String> = Vec::new();
    let mut i: usize = 0;
    while i < v.len()
        invariant
            i <= v@.len(),
            r@.len() == i,
            forall|j: int| 0 <= j < i ==> #[trigger] r@[j]@ == v@[j]@,
        decreases v@.len() - i,
    {
        r.push(v[i].clone());
        i = i + 1;
    }
    assert(strings_view(r@) =~= strings_view(v@));
    r
}

fn clone_pairs(v: &Vec<(String, String)>) -> (r: Vec<(String, String)>)
    ensures
        pairs_view(r@) == pairs_view(v@),
{
    let mut r: Vec<(String, String)> = Vec::new();
    let mut i: usize = 0;
    while i < v.len()
        invariant
            i <= v@.len(),
            r@.len() == i,
            forall|j: int| 0 <= j < i ==> (#[trigger] r@[j]).0@ == v@[j].0@ && r@[j].1@ == v@[j].1@,
        decreases v@.len() - i,
    {
        let p = (v[i].0.clone(), v[i].1.clone());
        r.push(p);
        i = i + 1;
    }
    assert(pairs_view(r@) =~= pairs_view(v@));
    r
}

fn clone_opt_string(s: &Option<String>) -> (r: Option<String>)
    ensures
        opt_string_view(r) == opt_string_view(*s),
{
    match s {
        Some(t) => Some(t.clone()),
        None => None,
    }
}

impl Clone for ObjectRef {
    fn clone(&self) -> (r: Self)
        ensures
            r@ == self@,
    {
        ObjectRef { kind: self.kind.clone(), namespace: self.namespace.clone(), name: self.name.clone() }
    }
}

impl Clone for ObjectMeta {
    fn clone(&self) -> (r: Self)
        ensures
            r.name@ == self.name@,
            r.namespace@ == self.namespace@,
            r.resource_version@ == self.resource_version@,
            opt_string_view(r.deletion_timestamp) == opt_string_view(self.deletion_timestamp),
            strings_view(r.finalizers@) == strings_view(self.finalizers@),
    {
        ObjectMeta {
            name: self.name.clone(),
            namespace: self.namespace.clone(),
            resource_version: self.resource_version.clone(),
            deletion_timestamp: clone_opt_string(&self.deletion_timestamp),
            finalizers: clone_strings(&self.finalizers),
        }
    }
}

impl Clone for Object {
    fn clone(&self) -> (r: Self)
        ensures
            r@ == self@,
    {
        Object { kind: self.kind.clone(), metadata: self.metadata.clone(), data: clone_pairs(&self.data) }
    }
}

impl PartialEq for ObjectRef {
    fn eq(&self, o: &ObjectRef) -> (r: bool) {
        self.kind == o.kind && self.namespace == o.namespace && self.name == o.name
    }
}

impl vstd::std_specs::cmp::PartialEqSpecImpl for ObjectRef {
    open spec fn obeys_eq_spec() -> bool {
        true
    }

    open spec fn eq_spec(&self, o: &ObjectRef) -> bool {
        self@ == o@
    }
}

impl ObjectRef {
    /// The reference of an object: its kind, namespace and name.
    pub fn from_obj(o: &Object) -> (r: ObjectRef)
        ensures
            r@ == ref_of(o@),
    {
        ObjectRef {
            kind: o.kind.clone(),
            namespace: o.metadata.namespace.clone(),
            name: o.metadata.name.clone(),
        }
    }

    /// Whether `o` has this reference.
    pub fn matches(&self, o: &Object) -> (r: bool)
        ensures
            r == (self@ == ref_of(o@)),
    {
        self.kind == o.kind && self.namespace == o.metadata.namespace && self.name
            == o.metadata.name
    }
}

/// An object that lacks a field its identity needs.
#[derive(Debug, Clone, Copy, PartialEq, Eq, Structural)]
pub enum IdentityError {
    MissingName,
}

/// The reference of an object whose identity is complete; an object without
/// a name cannot be reconciled.
pub fn identity(o: &Object) -> (r: Result<ObjectRef, IdentityError>)
    ensures
        match r {
            Ok(k) => o@.name.len() > 0 && k@ == ref_of(o@),
            Err(e) => o@.name.len() == 0 && e == IdentityError::MissingName,
        },
{
    if o.metadata.name.as_str().is_empty() {
        Err(IdentityError::MissingName)
    } else {
        Ok(ObjectRef::from_obj(o))
    }
}

} // verus!
