//! Catalogs of definitions and entities, and definition inheritance.
use crate::entity::class::{EntityClass, class_text};
use crate::text::join;
use crate::types::uid::uuid_text;
use crate::entity::component::{ComponentData, ComponentDataView, components_view};
use crate::entity::definition::Definition;
use crate::entity::entity::Entity;
use crate::keyed::{CatalogConflict, KeyedCatalog, Keyed, file_outcome, key_taken};
use crate::ordered_map::{OrderedKey, OrderedMap};
use crate::types::key::Key;
use crate::types::uid::{DefinitionUid, EntityUid};
use vstd::prelude::*;
use vstd::string::*;

verus! {

#[derive(Debug)]
pub enum DefinitionCatalogError {
    DuplicateUid(DefinitionUid),
    DuplicateKey(Key),
}

#[derive(Clone, Copy, Debug, PartialEq, Eq, Structural)]
pub enum DefinitionResolutionError {
    MissingDefinition(DefinitionUid),
    MissingParent { definition: DefinitionUid, parent: DefinitionUid },
    InheritanceCycle(DefinitionUid),
    ParentClassMismatch {
        definition: DefinitionUid,
        definition_class: EntityClass,
        parent: DefinitionUid,
        parent_class: EntityClass,
    },
}

/// The text of a definition catalog error.
pub open spec fn definition_catalog_error_text(e: DefinitionCatalogError) -> Seq<char> {
    match e {
        DefinitionCatalogError::DuplicateUid(uid) => "definition UID already registered: "@ + uuid_text(uid@),
        DefinitionCatalogError::DuplicateKey(key) => "definition key already registered: "@ + key@,
    }
}

impl DefinitionCatalogError {
    pub fn message(&self) -> (r: String)
        ensures
            r@ == definition_catalog_error_text(*self),
    {
        match self {
            DefinitionCatalogError::DuplicateUid(uid) => join(
                String::from_str("definition UID already registered: "),
                uid.to_string().as_str(),
            ),
            DefinitionCatalogError::DuplicateKey(key) => join(
                String::from_str("definition key already registered: "),
                key.as_str(),
            ),
        }
    }
}

/// The text of a resolution error.
pub open spec fn resolution_error_text(e: DefinitionResolutionError) -> Seq<char> {
    match e {
        DefinitionResolutionError::MissingDefinition(uid) => "definition does not exist: "@ + uuid_text(uid@),
        DefinitionResolutionError::MissingParent { definition, parent } => "definition "@ + uuid_text(
            definition@,
        ) + " extends missing parent "@ + uuid_text(parent@),
        DefinitionResolutionError::InheritanceCycle(uid) => "definition inheritance cycle contains "@
            + uuid_text(uid@),
        DefinitionResolutionError::ParentClassMismatch { definition, definition_class, parent, parent_class } =>
            "definition "@ + uuid_text(definition@) + " ("@ + class_text(definition_class)
            + ") cannot extend "@ + uuid_text(parent@) + " ("@ + class_text(parent_class) + ")"@,
    }
}

impl DefinitionResolutionError {
    pub fn message(&self) -> (r: String)
        ensures
            r@ == resolution_error_text(*self),
    {
        match self {
            DefinitionResolutionError::MissingDefinition(uid) => join(
                String::from_str("definition does not exist: "),
                uid.to_string().as_str(),
            ),
            DefinitionResolutionError::MissingParent { definition, parent } => {
                let out = join(String::from_str("definition "), definition.to_string().as_str());
                let out = join(out, " extends missing parent ");
                join(out, parent.to_string().as_str())
            },
            DefinitionResolutionError::InheritanceCycle(uid) => join(
                String::from_str("definition inheritance cycle contains "),
                uid.to_string().as_str(),
            ),
            DefinitionResolutionError::ParentClassMismatch { definition, definition_class, parent, parent_class } => {
                let out = join(String::from_str("definition "), definition.to_string().as_str());
                let out = join(out, " (");
                let out = join(out, definition_class.debug_text().as_str());
                let out = join(out, ") cannot extend ");
                let out = join(out, parent.to_string().as_str());
                let out = join(out, " (");
                let out = join(out, parent_class.debug_text().as_str());
                join(out, ")")
            },
        }
    }
}

/// A resolution error as contracts see it.
pub enum ResolutionErrorView {
    MissingDefinition(u128),
    MissingParent { definition: u128, parent: u128 },
    InheritanceCycle(u128),
    ParentClassMismatch {
        definition: u128,
        definition_class: EntityClass,
        parent: u128,
        parent_class: EntityClass,
    },
}

impl View for DefinitionResolutionError {
    type V = ResolutionErrorView;

    open spec fn view(&self) -> ResolutionErrorView {
        match *self {
            DefinitionResolutionError::MissingDefinition(u) => ResolutionErrorView::MissingDefinition(u@),
            DefinitionResolutionError::MissingParent { definition, parent } =>
                ResolutionErrorView::MissingParent { definition: definition@, parent: parent@ },
            DefinitionResolutionError::InheritanceCycle(u) => ResolutionErrorView::InheritanceCycle(u@),
            DefinitionResolutionError::ParentClassMismatch {
                definition,
                definition_class,
                parent,
                parent_class,
            } => ResolutionErrorView::ParentClassMismatch {
                definition: definition@,
                definition_class,
                parent: parent@,
                parent_class,
            },
        }
    }
}

/// A definition with its whole inheritance chain applied.
#[derive(Debug)]
pub struct ResolvedDefinition {
    pub uid: DefinitionUid,
    pub key: Key,
    pub class: EntityClass,
    pub lineage: Vec<DefinitionUid>,
    pub components: OrderedMap<Key, ComponentData>,
}

/// A resolved definition as contracts see it.
pub struct ResolvedView {
    pub uid: u128,
    pub key: Seq<char>,
    pub class: EntityClass,
    pub lineage: Seq<u128>,
    pub components: Map<Seq<char>, ComponentDataView>,
}

impl View for ResolvedDefinition {
    type V = ResolvedView;

    open spec fn view(&self) -> ResolvedView {
        ResolvedView {
            uid: self.uid@,
            key: self.key@,
            class: self.class,
            lineage: self.lineage@.map_values(|u: DefinitionUid| u@),
            components: components_view(self.components@),
        }
    }
}

/// Resolving `uid` among `defs` while the definitions in `visiting` are
/// being resolved: the definition must exist and not be under resolution
/// already; its parent, if any, must exist, have the same class and resolve
/// in turn. The lineage runs from the root to `uid`, and a child's component
/// replaces its parent's component with the same key.
pub open spec fn resolve_from(defs: Map<u128, Definition>, uid: u128, visiting: Set<u128>) -> Result<
    ResolvedView,
    ResolutionErrorView,
>
    decreases defs.dom().difference(visiting).len(),
    when defs.dom().finite()
{
    if visiting.contains(uid) {
        Err(ResolutionErrorView::InheritanceCycle(uid))
    } else if !defs.contains_key(uid) {
        Err(ResolutionErrorView::MissingDefinition(uid))
    } else {
        let d = defs[uid];
        match d.extends {
            None => Ok(
                ResolvedView {
                    uid,
                    key: d.key@,
                    class: d.class,
                    lineage: seq![uid],
                    components: components_view(d.components@),
                },
            ),
            Some(p) => if !defs.contains_key(p@) {
                Err(ResolutionErrorView::MissingParent { definition: uid, parent: p@ })
            } else if defs[p@].class != d.class {
                Err(
                    ResolutionErrorView::ParentClassMismatch {
                        definition: uid,
                        definition_class: d.class,
                        parent: p@,
                        parent_class: defs[p@].class,
                    },
                )
            } else {
                proof {
                    lemma_difference_shrinks(defs.dom(), visiting, uid);
                }
                match resolve_from(defs, p@, visiting.insert(uid)) {
                    Err(e) => Err(e),
                    Ok(parent) => Ok(
                        ResolvedView {
                            uid,
                            key: d.key@,
                            class: d.class,
                            lineage: parent.lineage.push(uid),
                            components: parent.components.union_prefer_right(
                                components_view(d.components@),
                            ),
                        },
                    ),
                }
            },
        }
    }
}

/// Resolving `uid` among `defs`, starting with nothing under resolution.
pub open spec fn resolve_spec(defs: Map<u128, Definition>, uid: u128) -> Result<ResolvedView, ResolutionErrorView> {
    resolve_from(defs, uid, Set::empty())
}

/// Taking one more member out of a finite set leaves fewer.
pub proof fn lemma_difference_shrinks(dom: Set<u128>, visiting: Set<u128>, uid: u128)
    requires
        dom.finite(),
        dom.contains(uid),
        !visiting.contains(uid),
    ensures
        dom.difference(visiting.insert(uid)).len() < dom.difference(visiting).len(),
{
    assert(dom.difference(visiting.insert(uid)) =~= dom.difference(visiting).remove(uid));
    assert(dom.difference(visiting).contains(uid));
}

/// Definitions by identity and by key.
#[derive(Debug)]
pub struct DefinitionCatalog {
    definitions: KeyedCatalog<DefinitionUid, Definition>,
}

impl View for DefinitionCatalog {
    type V = Map<u128, Definition>;

    closed spec fn view(&self) -> Map<u128, Definition> {
        self.definitions@
    }
}

impl Default for DefinitionCatalog {
    fn default() -> (r: Self)
        ensures
            r@ == Map::<u128, Definition>::empty(),
    {
        DefinitionCatalog::new()
    }
}

impl DefinitionCatalog {
    /// A catalog holds finitely many definitions.
    pub proof fn lemma_finite(self)
        ensures
            self@.dom().finite(),
    {
        self.definitions.lemma_finite();
    }

    pub fn new() -> (r: Self)
        ensures
            r@ == Map::<u128, Definition>::empty(),
    {
        DefinitionCatalog { definitions: KeyedCatalog::new() }
    }

    /// Each definition is filed under its own identity, no two share a key,
    /// and there are finitely many.
    pub fn lemma_catalog(&self)
        ensures
            forall|u: u128| #[trigger] self@.contains_key(u) ==> self@[u].uid@ == u,
            forall|u: u128, w: u128|
                #![trigger self@.contains_key(u), self@.contains_key(w)]
                self@.contains_key(u) && self@.contains_key(w) && self@[u].key@ == self@[w].key@ ==> u == w,
            self@.dom().finite(),
    {
        self.definitions.lemma_indexed();
    }

    /// Files a definition whose identity and key are both new.
    pub fn register(&mut self, definition: Definition) -> (r: Result<(), DefinitionCatalogError>)
        ensures
            match file_outcome::<u128, Definition, DefinitionUid>(old(self)@, definition) {
                Ok(m) => r is Ok && final(self)@ == m,
                Err(CatalogConflict::Uid) => r == Err::<(), DefinitionCatalogError>(
                    DefinitionCatalogError::DuplicateUid(definition.uid),
                ) && final(self)@ == old(self)@,
                Err(CatalogConflict::Key) => r == Err::<(), DefinitionCatalogError>(
                    DefinitionCatalogError::DuplicateKey(definition.key),
                ) && final(self)@ == old(self)@,
            },
    {
        let uid = definition.uid;
        let key = definition.key.clone();
        match self.definitions.file(definition) {
            Ok(()) => Ok(()),
            Err(CatalogConflict::Uid) => Err(DefinitionCatalogError::DuplicateUid(uid)),
            Err(CatalogConflict::Key) => Err(DefinitionCatalogError::DuplicateKey(key)),
        }
    }

    pub fn get(&self, uid: DefinitionUid) -> (r: Option<&Definition>)
        ensures
            match r {
                Some(d) => self@.contains_key(uid@) && *d == self@[uid@],
                None => !self@.contains_key(uid@),
            },
    {
        self.definitions.get(&uid)
    }

    /// The definition that carries this key.
    pub fn get_by_key(&self, key: &str) -> (r: Option<&Definition>)
        ensures
            match r {
                Some(d) => self@.contains_key(d.uid@) && *d == self@[d.uid@] && d.key@ == key@,
                None => !key_taken::<u128, Definition, DefinitionUid>(self@, key@),
            },
    {
        self.definitions.get_by_key(key)
    }

    pub fn len(&self) -> (n: usize)
        ensures
            n == self@.len(),
    {
        self.definitions.len()
    }

    pub fn is_empty(&self) -> (b: bool)
        ensures
            b == (self@ == Map::<u128, Definition>::empty()),
    {
        self.definitions.is_empty()
    }

    /// Resolves a definition through its inheritance chain.
    pub fn resolve(&self, uid: DefinitionUid) -> (r: Result<ResolvedDefinition, DefinitionResolutionError>)
        ensures
            match resolve_spec(self@, uid@) {
                Ok(v) => r matches Ok(x) && x@ == v,
                Err(e) => r matches Err(x) && x@ == e,
            },
    {
        self.lemma_catalog();
        let mut visiting: OrderedMap<DefinitionUid, ()> = OrderedMap::new();
        proof {
            assert(visiting@.dom() =~= Set::<u128>::empty());
        }
        self.resolve_inner(uid, &mut visiting)
    }

    fn resolve_inner(&self, uid: DefinitionUid, visiting: &mut OrderedMap<DefinitionUid, ()>) -> (r:
        Result<ResolvedDefinition, DefinitionResolutionError>)
        requires
            self@.dom().finite(),
        ensures
            match resolve_from(self@, uid@, old(visiting)@.dom()) {
                Ok(v) => r matches Ok(x) && x@ == v,
                Err(e) => r matches Err(x) && x@ == e,
            },
        decreases self@.dom().difference(old(visiting)@.dom()).len(),
    {
        if visiting.contains_key(&uid) {
            return Err(DefinitionResolutionError::InheritanceCycle(uid));
        }
        let definition = match self.get(uid) {
            Some(d) => d,
            None => {
                return Err(DefinitionResolutionError::MissingDefinition(uid));
            },
        };
        let ghost before = visiting@.dom();
        visiting.insert(uid, ());
        proof {
            assert(visiting@.dom() =~= before.insert(uid@));
        }
        let mut lineage: Vec<DefinitionUid> = Vec::new();
        let mut components: OrderedMap<Key, ComponentData> = OrderedMap::new();
        let ghost mut base: Map<Seq<char>, ComponentDataView> = Map::empty();
        let ghost mut base_lineage: Seq<u128> = Seq::empty();
        proof {
            assert(components_view(components@) =~= base);
            assert(lineage@.map_values(|u: DefinitionUid| u@) =~= base_lineage);
        }
        match definition.extends {
            Some(parent_uid) => {
                let parent = match self.get(parent_uid) {
                    Some(p) => p,
                    None => {
                        return Err(
                            DefinitionResolutionError::MissingParent { definition: uid, parent: parent_uid },
                        );
                    },
                };
                if parent.class != definition.class {
                    return Err(
                        DefinitionResolutionError::ParentClassMismatch {
                            definition: uid,
                            definition_class: definition.class,
                            parent: parent_uid,
                            parent_class: parent.class,
                        },
                    );
                }
                proof {
                    lemma_difference_shrinks(self@.dom(), before, uid@);
                }
                let resolved_parent = match self.resolve_inner(parent_uid, visiting) {
                    Ok(p) => p,
                    Err(e) => {
                        return Err(e);
                    },
                };
                proof {
                    base = resolved_parent@.components;
                    base_lineage = resolved_parent@.lineage;
                }
                lineage = resolved_parent.lineage;
                components = resolved_parent.components;
            },
            None => {},
        }
        lineage.push(uid);
        proof {
            assert(lineage@.map_values(|u: DefinitionUid| u@) =~= base_lineage.push(uid@));
        }
        let own = &definition.components;
        own.lemma_sorted();
        let n = own.len();
        for i in 0..n
            invariant
                n == own.keys().len(),
                own.keys().len() == own.values().len(),
                forall|i: int|
                    #![trigger own.keys()[i]]
                    0 <= i < own.keys().len() ==> own@.contains_key(own.keys()[i]) && own@[own.keys()[i]]
                        == own.values()[i],
                forall|k: Seq<char>| #[trigger] own@.contains_key(k) <==> own.keys().contains(k),
                forall|k: Seq<char>|
                    #[trigger] components@.contains_key(k) <==> (base.contains_key(k)
                        || own.keys().subrange(0, i as int).contains(k)),
                forall|k: Seq<char>|
                    #[trigger] components@.contains_key(k) ==> components@[k]@ == if own.keys().subrange(
                        0,
                        i as int,
                    ).contains(k) {
                        own@[k]@
                    } else {
                        base[k]
                    },
        {
            let key = own.key_at(i).clone();
            let value = own.value_at(i).clone();
            let ghost kv = key@;
            components.insert(key, value);
            proof {
                let pre = own.keys().subrange(0, i as int);
                let post = own.keys().subrange(0, i + 1);
                assert(own.keys()[i as int] == kv);
                assert(post[i as int] == kv);
                assert(value@ == own@[kv]@);
                assert forall|k: Seq<char>| k != kv implies (#[trigger] post.contains(k) <==> pre.contains(k)) by {
                    if pre.contains(k) {
                        let j = choose|j: int| 0 <= j < i && #[trigger] pre[j] == k;
                        assert(post[j] == k);
                    }
                    if post.contains(k) {
                        let j = choose|j: int| 0 <= j < i + 1 && #[trigger] post[j] == k;
                        assert(pre[j] == k);
                    }
                }
                assert(post.contains(kv));
            }
        }
        proof {
            assert(own.keys().subrange(0, n as int) =~= own.keys());
            assert(components_view(components@) =~= base.union_prefer_right(components_view(own@)));
            let d = self@[uid@];
            assert(*definition == d);
            match d.extends {
                None => {
                    assert(base_lineage.push(uid@) =~= seq![uid@]);
                    assert(base.union_prefer_right(components_view(own@)) =~= components_view(own@));
                },
                Some(p) => {},
            }
        }
        visiting.remove(&uid);
        Ok(ResolvedDefinition { uid, key: definition.key.clone(), class: definition.class, lineage, components })
    }
}

/// The identity of a definition's parent, if it has one.
pub open spec fn parent_of(d: Definition) -> Option<u128> {
    match d.extends {
        Some(p) => Some(p@),
        None => None,
    }
}

/// What every successful resolution gives: a lineage that starts at a
/// definition without parent, ends at the resolved definition, links each
/// definition to its own parent, names no definition twice and stays
/// within one class.
pub open spec fn lineage_ok(defs: Map<u128, Definition>, uid: u128, r: ResolvedView) -> bool {
    &&& r.uid == uid
    &&& r.lineage.len() >= 1
    &&& r.lineage.last() == uid
    &&& r.lineage.no_duplicates()
    &&& forall|i: int|
        0 <= i < r.lineage.len() ==> defs.contains_key(#[trigger] r.lineage[i]) && defs[r.lineage[i]].class
            == r.class
    &&& defs[r.lineage[0]].extends is None
    &&& forall|i: int|
        0 <= i < r.lineage.len() - 1 ==> parent_of(#[trigger] defs[r.lineage[i + 1]]) == Some(r.lineage[i])
    &&& r.class == defs[uid].class
    &&& r.key == defs[uid].key@
}

proof fn lemma_resolve_from_lineage(defs: Map<u128, Definition>, uid: u128, visiting: Set<u128>)
    requires
        defs.dom().finite(),
        resolve_from(defs, uid, visiting) is Ok,
    ensures
        lineage_ok(defs, uid, resolve_from(defs, uid, visiting)->Ok_0),
        forall|i: int|
            0 <= i < resolve_from(defs, uid, visiting)->Ok_0.lineage.len() ==> !visiting.contains(
                #[trigger] resolve_from(defs, uid, visiting)->Ok_0.lineage[i],
            ),
    decreases defs.dom().difference(visiting).len(),
{
    let d = defs[uid];
    let r = resolve_from(defs, uid, visiting)->Ok_0;
    match d.extends {
        None => {
            assert(r.lineage =~= seq![uid]);
        },
        Some(p) => {
            lemma_difference_shrinks(defs.dom(), visiting, uid);
            let v2 = visiting.insert(uid);
            lemma_resolve_from_lineage(defs, p@, v2);
            let parent = resolve_from(defs, p@, v2)->Ok_0;
            assert(r.lineage == parent.lineage.push(uid));
            assert forall|i: int| 0 <= i < r.lineage.len() implies !visiting.contains(#[trigger] r.lineage[i]) by {
                if i < parent.lineage.len() {
                    assert(r.lineage[i] == parent.lineage[i]);
                    assert(!v2.contains(parent.lineage[i]));
                }
            }
            assert(r.lineage.no_duplicates()) by {
                assert forall|i: int, j: int| 0 <= i < r.lineage.len() && 0 <= j < r.lineage.len() && i != j implies r.lineage[i] != r.lineage[j] by {
                    if i < parent.lineage.len() && j < parent.lineage.len() {
                        assert(r.lineage[i] == parent.lineage[i]);
                        assert(r.lineage[j] == parent.lineage[j]);
                    } else if i < parent.lineage.len() {
                        assert(!v2.contains(parent.lineage[i]));
                    } else {
                        assert(!v2.contains(parent.lineage[j]));
                    }
                }
            }
            assert forall|i: int| 0 <= i < r.lineage.len() - 1 implies parent_of(#[trigger] defs[r.lineage[i + 1]]) == Some(r.lineage[i]) by {
                if i + 1 < parent.lineage.len() {
                    assert(r.lineage[i + 1] == parent.lineage[i + 1]);
                    assert(parent_of(defs[parent.lineage[i + 1]]) == Some(parent.lineage[i]));
                }
            }
            assert forall|i: int| 0 <= i < r.lineage.len() implies defs.contains_key(#[trigger] r.lineage[i]) && defs[r.lineage[i]].class == r.class by {
                if i < parent.lineage.len() {
                    assert(r.lineage[i] == parent.lineage[i]);
                }
            }
            assert(r.lineage[0] == parent.lineage[0]);
        },
    }
}

/// A definition resolves to a lineage that runs from a definition without
/// parent, through each definition's own parent, to the definition itself,
/// names no definition twice, and keeps one class throughout.
pub proof fn law_resolution_lineage(catalog: DefinitionCatalog, uid: u128)
    requires
        resolve_spec(catalog@, uid) is Ok,
    ensures
        lineage_ok(catalog@, uid, resolve_spec(catalog@, uid)->Ok_0),
{
    catalog.lemma_finite();
    lemma_resolve_from_lineage(catalog@, uid, Set::empty());
}

proof fn lemma_resolve_from_smaller_visiting(
    defs: Map<u128, Definition>,
    uid: u128,
    big: Set<u128>,
    small: Set<u128>,
)
    requires
        defs.dom().finite(),
        small.subset_of(big),
        resolve_from(defs, uid, big) is Ok,
    ensures
        resolve_from(defs, uid, small) == resolve_from(defs, uid, big),
    decreases defs.dom().difference(small).len(),
{
    let d = defs[uid];
    assert(!big.contains(uid));
    assert(!small.contains(uid));
    if let Some(p) = d.extends {
        if defs.contains_key(p@) && defs[p@].class == d.class {
            lemma_difference_shrinks(defs.dom(), small, uid);
            assert(small.insert(uid).subset_of(big.insert(uid)));
            lemma_resolve_from_smaller_visiting(defs, p@, big.insert(uid), small.insert(uid));
        }
    }
}

/// Resolving a definition with a parent builds on resolving the parent:
/// the parent resolves too, the lineage is the parent's followed by the
/// definition, and the components are the parent's resolved components,
/// each kept unless the definition has its own component with that key,
/// together with the definition's own components. A definition without
/// parent resolves to its own components alone.
pub proof fn law_resolution_inherits_parent(catalog: DefinitionCatalog, uid: u128)
    requires
        resolve_spec(catalog@, uid) is Ok,
    ensures
        ({
            let d = catalog@[uid];
            let own = components_view(d.components@);
            let child = resolve_spec(catalog@, uid)->Ok_0;
            &&& catalog@.contains_key(uid)
            &&& parent_of(d) is None ==> child.lineage == seq![uid] && child.components == own
            &&& parent_of(d) matches Some(p) ==> {
                &&& resolve_spec(catalog@, p) is Ok
                &&& child.lineage == resolve_spec(catalog@, p)->Ok_0.lineage.push(uid)
                &&& forall|k: Seq<char>| #[trigger] child.components.contains_key(k) <==> (
                resolve_spec(catalog@, p)->Ok_0.components.contains_key(k) || own.contains_key(k))
                &&& forall|k: Seq<char>|
                    #[trigger] child.components.contains_key(k) ==> child.components[k] == if own.contains_key(
                        k,
                    ) {
                        own[k]
                    } else {
                        resolve_spec(catalog@, p)->Ok_0.components[k]
                    }
            }
        }),
{
    catalog.lemma_finite();
    let defs = catalog@;
    let d = defs[uid];
    if let Some(p) = d.extends {
        let s1 = Set::<u128>::empty().insert(uid);
        assert(resolve_from(defs, p@, s1) is Ok);
        lemma_resolve_from_smaller_visiting(defs, p@, s1, Set::empty());
    }
}

/// A definition's own component stands in its resolution as it is,
/// replacing any parent component with the same key.
pub proof fn law_child_component_replaces_parent(catalog: DefinitionCatalog, uid: u128, k: Seq<char>)
    requires
        resolve_spec(catalog@, uid) is Ok,
        catalog@[uid].components@.contains_key(k),
    ensures
        catalog@.contains_key(uid),
        resolve_spec(catalog@, uid)->Ok_0.components.contains_key(k),
        resolve_spec(catalog@, uid)->Ok_0.components[k] == catalog@[uid].components@[k]@,
{
    catalog.lemma_finite();
}

#[derive(Debug)]
pub enum EntityCatalogError {
    DuplicateUid(EntityUid),
    DuplicateKey(Key),
}

/// The text of an entity catalog error.
pub open spec fn entity_catalog_error_text(e: EntityCatalogError) -> Seq<char> {
    match e {
        EntityCatalogError::DuplicateUid(uid) => "entity UID already registered: "@ + uuid_text(uid@),
        EntityCatalogError::DuplicateKey(key) => "entity key already registered: "@ + key@,
    }
}

impl EntityCatalogError {
    pub fn message(&self) -> (r: String)
        ensures
            r@ == entity_catalog_error_text(*self),
    {
        match self {
            EntityCatalogError::DuplicateUid(uid) => join(
                String::from_str("entity UID already registered: "),
                uid.to_string().as_str(),
            ),
            EntityCatalogError::DuplicateKey(key) => join(
                String::from_str("entity key already registered: "),
                key.as_str(),
            ),
        }
    }
}

/// Entities by identity and by key.
#[derive(Debug)]
pub struct EntityCatalog {
    entities: KeyedCatalog<EntityUid, Entity>,
}

impl View for EntityCatalog {
    type V = Map<u128, Entity>;

    closed spec fn view(&self) -> Map<u128, Entity> {
        self.entities@
    }
}

impl Default for EntityCatalog {
    fn default() -> (r: Self)
        ensures
            r@ == Map::<u128, Entity>::empty(),
    {
        EntityCatalog::new()
    }
}

impl EntityCatalog {
    pub fn new() -> (r: Self)
        ensures
            r@ == Map::<u128, Entity>::empty(),
    {
        EntityCatalog { entities: KeyedCatalog::new() }
    }

    /// Files an entity whose identity and key are both new.
    pub fn register(&mut self, entity: Entity) -> (r: Result<(), EntityCatalogError>)
        ensures
            match file_outcome::<u128, Entity, EntityUid>(old(self)@, entity) {
                Ok(m) => r is Ok && final(self)@ == m,
                Err(CatalogConflict::Uid) => r == Err::<(), EntityCatalogError>(
                    EntityCatalogError::DuplicateUid(entity.uid),
                ) && final(self)@ == old(self)@,
                Err(CatalogConflict::Key) => r == Err::<(), EntityCatalogError>(
                    EntityCatalogError::DuplicateKey(entity.key),
                ) && final(self)@ == old(self)@,
            },
    {
        let uid = entity.uid;
        let key = entity.key.clone();
        match self.entities.file(entity) {
            Ok(()) => Ok(()),
            Err(CatalogConflict::Uid) => Err(EntityCatalogError::DuplicateUid(uid)),
            Err(CatalogConflict::Key) => Err(EntityCatalogError::DuplicateKey(key)),
        }
    }

    pub fn get(&self, uid: EntityUid) -> (r: Option<&Entity>)
        ensures
            match r {
                Some(e) => self@.contains_key(uid@) && *e == self@[uid@],
                None => !self@.contains_key(uid@),
            },
    {
        self.entities.get(&uid)
    }

    /// The entity that carries this key.
    pub fn get_by_key(&self, key: &str) -> (r: Option<&Entity>)
        ensures
            match r {
                Some(e) => self@.contains_key(e.uid@) && *e == self@[e.uid@] && e.key@ == key@,
                None => !key_taken::<u128, Entity, EntityUid>(self@, key@),
            },
    {
        self.entities.get_by_key(key)
    }

    pub fn len(&self) -> (n: usize)
        ensures
            n == self@.len(),
    {
        self.entities.len()
    }

    pub fn is_empty(&self) -> (b: bool)
        ensures
            b == (self@ == Map::<u128, Entity>::empty()),
    {
        self.entities.is_empty()
    }
}

} // verus!
