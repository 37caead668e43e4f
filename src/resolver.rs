use vstd::prelude::*;

verus! {

/// Where a resource type lives: across the whole cluster, or inside one namespace.
#[derive(PartialEq, Eq, Structural, Clone, Copy, Debug)]
pub enum Scope {
    Cluster,
    Namespaced,
}

/// The identity of one watchable resource type, as the cluster's catalog lists it.
pub struct ResourceDescriptor {
    pub group: String,
    pub version: String,
    pub api_version: String,
    pub kind: String,
    pub plural: String,
    pub scope: Scope,
}

/// What the user said about the resource type: a kind, and optional narrowing
/// fields. An absent field admits any value.
pub struct ResourceFilterCriteria {
    pub kind: String,
    pub group: Option<String>,
    pub group_version: Option<String>,
    pub api_version: Option<String>,
    pub plural: Option<String>,
}

/// Why no single resource type was chosen.
#[derive(PartialEq, Eq, Structural, Clone, Copy, Debug)]
pub enum ResolveError {
    /// No catalog entry satisfies the criteria.
    NotFound,
    /// Two or more catalog entries satisfy the criteria.
    Ambiguous,
}

/// An optional criterion admits `field` when it is absent or equal to it.
pub open spec fn admits_field(criterion: Option<String>, field: String) -> bool {
    match criterion {
        Some(c) => c@ == field@,
        None => true,
    }
}

/// The descriptor satisfies every criterion that was given, and has the kind asked for.
pub open spec fn admits(c: ResourceFilterCriteria, d: ResourceDescriptor) -> bool {
    &&& admits_field(c.group, d.group)
    &&& admits_field(c.group_version, d.version)
    &&& admits_field(c.api_version, d.api_version)
    &&& c.kind@ == d.kind@
    &&& admits_field(c.plural, d.plural)
}

/// The catalog entries that satisfy the criteria, in catalog order.
pub open spec fn candidates(c: ResourceFilterCriteria, catalog: Seq<ResourceDescriptor>) -> Seq<
    ResourceDescriptor,
>
    decreases catalog.len(),
{
    if catalog.len() == 0 {
        Seq::empty()
    } else {
        let rest = candidates(c, catalog.drop_last());
        if admits(c, catalog.last()) {
            rest.push(catalog.last())
        } else {
            rest
        }
    }
}

fn field_admitted(criterion: &Option<String>, field: &String) -> (r: bool)
    ensures
        r == admits_field(*criterion, *field),
{
    match criterion {
        Some(c) => c.eq(field),
        None => true,
    }
}

impl ResourceFilterCriteria {
    /// Whether the descriptor satisfies these criteria (see `admits`).
    pub fn filter_resource(&self, d: &ResourceDescriptor) -> (r: bool)
        ensures
            r == admits(*self, *d),
    {
        field_admitted(&self.group, &d.group) && field_admitted(&self.group_version, &d.version)
            && field_admitted(&self.api_version, &d.api_version) && self.kind.eq(&d.kind)
            && field_admitted(&self.plural, &d.plural)
    }
}

/// Picks the one catalog entry that satisfies the criteria.
pub fn resolve(criteria: &ResourceFilterCriteria, catalog: Vec<ResourceDescriptor>) -> (r: Result<
    ResourceDescriptor,
    ResolveError,
>)
    ensures
        candidates(*criteria, catalog@).len() == 0 <==> r == Err::<ResourceDescriptor, ResolveError>(
            ResolveError::NotFound,
        ),
        candidates(*criteria, catalog@).len() == 1 <==> r == Ok::<ResourceDescriptor, ResolveError>(
            candidates(*criteria, catalog@)[0],
        ),
        candidates(*criteria, catalog@).len() >= 2 <==> r == Err::<ResourceDescriptor, ResolveError>(
            ResolveError::Ambiguous,
        ),
{
    let mut catalog = catalog;
    let ghost all = catalog@;
    let mut count: usize = 0;
    let mut first: usize = 0;
    let mut i: usize = 0;
    while i < catalog.len()
        invariant
            catalog@ == all,
            0 <= i <= all.len(),
            count == candidates(*criteria, all.subrange(0, i as int)).len(),
            count <= i,
            count > 0 ==> first < i && candidates(*criteria, all.subrange(0, i as int))[0]
                == all[first as int],
        decreases all.len() - i,
    {
        proof {
            let pre = all.subrange(0, i as int);
            let next = all.subrange(0, i + 1);
            assert(next.drop_last() =~= pre);
            assert(next.last() == all[i as int]);
        }
        if criteria.filter_resource(&catalog[i]) {
            if count == 0 {
                first = i;
            }
            count += 1;
        }
        i += 1;
    }
    assert(all.subrange(0, all.len() as int) =~= all);
    if count == 0 {
        Err(ResolveError::NotFound)
    } else if count == 1 {
        Ok(catalog.swap_remove(first))
    } else {
        Err(ResolveError::Ambiguous)
    }
}

/// The namespace to watch in: none for a cluster-wide type; for a namespaced
/// type the one asked for, or else `default`.
pub fn watch_namespace(scope: Scope, requested: Option<String>, default: String) -> (r: Option<String>)
    ensures
        scope == Scope::Cluster ==> r is None,
        scope == Scope::Namespaced ==> r == Some(
            match requested {
                Some(ns) => ns,
                None => default,
            },
        ),
{
    match scope {
        Scope::Cluster => None,
        Scope::Namespaced => match requested {
            Some(ns) => Some(ns),
            None => Some(default),
        },
    }
}

} // verus!
