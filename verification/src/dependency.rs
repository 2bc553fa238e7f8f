//! Cache keys, dependency keys, and the graph that links cache entries to
//! the inputs they were computed from.

use vstd::prelude::*;

verus! {

/// Key of a cache entry: hashes of the content, the spatial constraints and
/// the engine state it was computed under.
#[derive(Clone, Copy, Debug, PartialEq, Eq, Hash, Structural)]
pub struct CacheKey {
    pub content_hash: u128,
    pub constraint_hash: u128,
    pub state_hash: u128,
}

impl DeepView for CacheKey {
    type V = CacheKey;

    open spec fn deep_view(&self) -> CacheKey {
        *self
    }
}

/// Kinds of input a computation can depend on.
#[derive(Clone, Debug, PartialEq, Eq, Hash)]
pub enum DependencyType {
    /// File system access (input files, images, etc.)
    File,
    /// Macro definition or expansion
    Macro,
    /// TeX register value (count, dimen, skip, etc.)
    Register,
    /// Font loading or metrics query
    Font,
    /// Package or class loading
    Package,
    /// Environment variable
    Environment,
    /// User-defined dependency
    Custom(String),
}

/// The abstract value of a `DependencyType`.
pub enum DependencyTypeView {
    File,
    Macro,
    Register,
    Font,
    Package,
    Environment,
    Custom(Seq<char>),
}

impl View for DependencyType {
    type V = DependencyTypeView;

    open spec fn view(&self) -> DependencyTypeView {
        match self {
            DependencyType::File => DependencyTypeView::File,
            DependencyType::Macro => DependencyTypeView::Macro,
            DependencyType::Register => DependencyTypeView::Register,
            DependencyType::Font => DependencyTypeView::Font,
            DependencyType::Package => DependencyTypeView::Package,
            DependencyType::Environment => DependencyTypeView::Environment,
            DependencyType::Custom(s) => DependencyTypeView::Custom(s@),
        }
    }
}

impl DependencyType {
    /// Whether two dependency types are the same.
    pub fn same_as(&self, other: &DependencyType) -> (b: bool)
        ensures
            b == (self@ == other@),
    {
        match self {
            DependencyType::File => match other {
                DependencyType::File => true,
                _ => false,
            },
            DependencyType::Macro => match other {
                DependencyType::Macro => true,
                _ => false,
            },
            DependencyType::Register => match other {
                DependencyType::Register => true,
                _ => false,
            },
            DependencyType::Font => match other {
                DependencyType::Font => true,
                _ => false,
            },
            DependencyType::Package => match other {
                DependencyType::Package => true,
                _ => false,
            },
            DependencyType::Environment => match other {
                DependencyType::Environment => true,
                _ => false,
            },
            DependencyType::Custom(a) => match other {
                DependencyType::Custom(b) => *a == *b,
                _ => false,
            },
        }
    }

    /// A copy with the same view.
    pub fn duplicate(&self) -> (r: DependencyType)
        ensures
            r@ == self@,
    {
        match self {
            DependencyType::File => DependencyType::File,
            DependencyType::Macro => DependencyType::Macro,
            DependencyType::Register => DependencyType::Register,
            DependencyType::Font => DependencyType::Font,
            DependencyType::Package => DependencyType::Package,
            DependencyType::Environment => DependencyType::Environment,
            DependencyType::Custom(s) => DependencyType::Custom(s.clone()),
        }
    }
}

/// The abstract value of a `DependencyKey`.
pub struct DependencyKeyView {
    pub dep_type: DependencyTypeView,
    pub identifier: Seq<char>,
    pub value_hash: u128,
}

/// An input that a computation read, with the hash of its value then.
#[derive(Clone, Debug, PartialEq, Eq, Hash)]
pub struct DependencyKey {
    /// Type of dependency (file, macro, register, font)
    pub dep_type: DependencyType,
    /// Identifier for the dependency
    pub identifier: String,
    /// Hash of the dependency value when accessed
    pub value_hash: u128,
}

impl View for DependencyKey {
    type V = DependencyKeyView;

    open spec fn view(&self) -> DependencyKeyView {
        DependencyKeyView {
            dep_type: self.dep_type@,
            identifier: self.identifier@,
            value_hash: self.value_hash,
        }
    }
}

impl DependencyKey {
    /// Whether two dependency keys are the same.
    pub fn same_as(&self, other: &DependencyKey) -> (b: bool)
        ensures
            b == (self@ == other@),
    {
        self.value_hash == other.value_hash && self.identifier == other.identifier
            && self.dep_type.same_as(&other.dep_type)
    }

    /// A copy with the same view.
    pub fn duplicate(&self) -> (r: DependencyKey)
        ensures
            r@ == self@,
    {
        DependencyKey {
            dep_type: self.dep_type.duplicate(),
            identifier: self.identifier.clone(),
            value_hash: self.value_hash,
        }
    }
}

/// The cache keys recorded against `dep`, in the order they were added.
pub open spec fn dependents_of(edges: Seq<(CacheKey, DependencyKeyView)>, dep: DependencyKeyView) -> Seq<
    CacheKey,
>
    decreases edges.len(),
{
    if edges.len() == 0 {
        Seq::empty()
    } else {
        let rest = dependents_of(edges.drop_last(), dep);
        if edges.last().1 == dep {
            rest.push(edges.last().0)
        } else {
            rest
        }
    }
}

/// The dependencies recorded for `key`, in the order they were added.
pub open spec fn dependencies_of(edges: Seq<(CacheKey, DependencyKeyView)>, key: CacheKey) -> Seq<
    DependencyKeyView,
>
    decreases edges.len(),
{
    if edges.len() == 0 {
        Seq::empty()
    } else {
        let rest = dependencies_of(edges.drop_last(), key);
        if edges.last().0 == key {
            rest.push(edges.last().1)
        } else {
            rest
        }
    }
}

/// The edges that remain after dropping every copy of `(key, dep)`.
pub open spec fn without_edge(
    edges: Seq<(CacheKey, DependencyKeyView)>,
    key: CacheKey,
    dep: DependencyKeyView,
) -> Seq<(CacheKey, DependencyKeyView)>
    decreases edges.len(),
{
    if edges.len() == 0 {
        Seq::empty()
    } else {
        let rest = without_edge(edges.drop_last(), key, dep);
        if edges.last().0 == key && edges.last().1 == dep {
            rest
        } else {
            rest.push(edges.last())
        }
    }
}

/// Links between cache entries and the dependencies they read, kept as
/// the list of recorded `(cache key, dependency)` pairs in recording order.
pub struct DependencyGraph {
    edges: Vec<(CacheKey, DependencyKey)>,
}

impl View for DependencyGraph {
    type V = Seq<(CacheKey, DependencyKeyView)>;

    closed spec fn view(&self) -> Seq<(CacheKey, DependencyKeyView)> {
        self.edges@.map_values(|e: (CacheKey, DependencyKey)| (e.0, e.1@))
    }
}

impl DependencyGraph {
    /// An empty graph.
    pub fn new() -> (g: Self)
        ensures
            g@ == Seq::<(CacheKey, DependencyKeyView)>::empty(),
    {
        let g = DependencyGraph { edges: Vec::new() };
        proof {
            assert(g@ =~= Seq::<(CacheKey, DependencyKeyView)>::empty());
        }
        g
    }

    /// Records that the entry under `cache_key` read `dep_key`.
    pub fn add_dependency(&mut self, cache_key: CacheKey, dep_key: DependencyKey)
        ensures
            final(self)@ == old(self)@.push((cache_key, dep_key@)),
    {
        let ghost d = dep_key@;
        self.edges.push((cache_key, dep_key));
        proof {
            assert(self@ =~= old(self)@.push((cache_key, d)));
        }
    }

    /// The cache keys that depend on `dep_key`, in the order recorded.
    pub fn get_dependents(&self, dep_key: &DependencyKey) -> (r: Vec<&CacheKey>)
        ensures
            r@.map_values(|k: &CacheKey| *k) == dependents_of(self@, dep_key@),
    {
        let mut r: Vec<&CacheKey> = Vec::new();
        let n = self.edges.len();
        let mut i: usize = 0;
        while i < n
            invariant
                n == self@.len(),
                i <= n,
                r@.map_values(|k: &CacheKey| *k) == dependents_of(self@.subrange(0, i as int), dep_key@),
            decreases n - i,
        {
            let e = &self.edges[i];
            proof {
                assert(self@[i as int] == (e.0, e.1@));
                assert(self@.subrange(0, i + 1).drop_last() =~= self@.subrange(0, i as int));
            }
            if e.1.same_as(dep_key) {
                r.push(&e.0);
            }
            proof {
                assert(r@.map_values(|k: &CacheKey| *k) =~= dependents_of(self@.subrange(0, i + 1), dep_key@));
            }
            i += 1;
        }
        proof {
            assert(self@.subrange(0, n as int) =~= self@);
        }
        r
    }

    /// The dependencies recorded for `cache_key`, in the order recorded.
    pub fn get_dependencies(&self, cache_key: &CacheKey) -> (r: Vec<&DependencyKey>)
        ensures
            r@.map_values(|d: &DependencyKey| d@) == dependencies_of(self@, *cache_key),
    {
        let mut r: Vec<&DependencyKey> = Vec::new();
        let n = self.edges.len();
        let mut i: usize = 0;
        while i < n
            invariant
                n == self@.len(),
                i <= n,
                r@.map_values(|d: &DependencyKey| d@) == dependencies_of(self@.subrange(0, i as int), *cache_key),
            decreases n - i,
        {
            let e = &self.edges[i];
            proof {
                assert(self@[i as int] == (e.0, e.1@));
                assert(self@.subrange(0, i + 1).drop_last() =~= self@.subrange(0, i as int));
            }
            if e.0 == *cache_key {
                r.push(&e.1);
            }
            proof {
                assert(r@.map_values(|d: &DependencyKey| d@) =~= dependencies_of(self@.subrange(0, i + 1), *cache_key));
            }
            i += 1;
        }
        proof {
            assert(self@.subrange(0, n as int) =~= self@);
        }
        r
    }

    /// Drops every record that links `cache_key` to `dep_key`.
    pub fn remove_dependency(&mut self, dep_key: &DependencyKey, cache_key: &CacheKey)
        ensures
            final(self)@ == without_edge(old(self)@, *cache_key, dep_key@),
    {
        let mut kept: Vec<(CacheKey, DependencyKey)> = Vec::new();
        let n = self.edges.len();
        let mut i: usize = 0;
        let ghost old_view = self@;
        while i < n
            invariant
                n == self@.len(),
                old_view == self@,
                i <= n,
                kept@.map_values(|e: (CacheKey, DependencyKey)| (e.0, e.1@)) == without_edge(
                    self@.subrange(0, i as int),
                    *cache_key,
                    dep_key@,
                ),
            decreases n - i,
        {
            let e = &self.edges[i];
            proof {
                assert(self@[i as int] == (e.0, e.1@));
                assert(self@.subrange(0, i + 1).drop_last() =~= self@.subrange(0, i as int));
            }
            if !(e.0 == *cache_key && e.1.same_as(dep_key)) {
                kept.push((e.0, e.1.duplicate()));
            }
            proof {
                assert(kept@.map_values(|e: (CacheKey, DependencyKey)| (e.0, e.1@)) =~= without_edge(
                    self@.subrange(0, i + 1),
                    *cache_key,
                    dep_key@,
                ));
            }
            i += 1;
        }
        proof {
            assert(self@.subrange(0, n as int) =~= self@);
        }
        self.edges = kept;
    }
}

} // verus!
