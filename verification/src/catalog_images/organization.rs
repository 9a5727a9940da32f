//! Collections and their hierarchy, keyword synonyms, memberships and relations
//! of images.
use crate::catalog::Catalog;
use crate::catalog_images;
use crate::catalog_images::collection_order_index::{MemberRow, Membership, OrderIndexError};
use crate::catalog_images::{
    id, require_image_metadata_identity, ImageMetadataIdentity, VariantKey,
};
use crate::catalog_metadata;
use crate::catalog_metadata::advance;
use crate::copies::Copied;
use crate::error::CatalogError;
use crate::ordering;
use crate::ordering::page_rows;
use crate::support;
use crate::support::{byte_len, contains_nul, copy_option, find, same};
use crate::tables;
use crate::tables::{Detail, ImageRow, Tables, TablesModel};
use vstd::prelude::*;

verus! {

/// The most bytes a name of the organization takes up.
pub const VALUE_BYTES: usize = 1024;

/// The most bytes a provenance document takes up.
pub const PROVENANCE_BYTES: usize = 65536;

/// The deepest hierarchy of collections.
pub const HIERARCHY_LEVELS: usize = 256;

/// The most rows on a page.
pub const PAGE_LIMIT: usize = 1000;

/// Where a collection stands in the hierarchy.
#[derive(Clone, Debug)]
pub struct CollectionPlacement {
    pub collection: String,
    pub parent: Option<String>,
    pub position: i64,
}

/// What a `CollectionPlacement` stands for.
#[verifier::ext_equal]
pub struct PlacementModel {
    pub collection: Seq<char>,
    pub parent: Option<Seq<char>>,
    pub position: i64,
}

impl View for CollectionPlacement {
    type V = PlacementModel;

    open spec fn view(&self) -> PlacementModel {
        PlacementModel {
            collection: self.collection@,
            parent: support::text_of(self.parent),
            position: self.position,
        }
    }
}

/// An image's membership in a collection.
#[derive(Clone, Debug)]
pub struct ImageMembership {
    pub key: VariantKey,
    pub position: i64,
    pub provenance: String,
}

/// What an `ImageMembership` stands for.
#[verifier::ext_equal]
pub struct MembershipModel {
    pub key: catalog_images::VariantKeyModel,
    pub position: i64,
    pub provenance: Seq<char>,
}

impl View for ImageMembership {
    type V = MembershipModel;

    open spec fn view(&self) -> MembershipModel {
        MembershipModel {
            key: self.key@,
            position: self.position,
            provenance: self.provenance@,
        }
    }
}

/// A relation of an image to another one.
#[derive(Clone, Debug)]
pub struct ImageRelation {
    pub sequence: i64,
    pub kind: String,
    pub from: VariantKey,
    pub to: VariantKey,
    pub position: i64,
    pub provenance: String,
}

/// What an `ImageRelation` stands for.
#[verifier::ext_equal]
pub struct ImageRelationModel {
    pub sequence: i64,
    pub kind: Seq<char>,
    pub from: catalog_images::VariantKeyModel,
    pub to: catalog_images::VariantKeyModel,
    pub position: i64,
    pub provenance: Seq<char>,
}

impl View for ImageRelation {
    type V = ImageRelationModel;

    open spec fn view(&self) -> ImageRelationModel {
        ImageRelationModel {
            sequence: self.sequence,
            kind: self.kind@,
            from: self.from@,
            to: self.to@,
            position: self.position,
            provenance: self.provenance@,
        }
    }
}

/// A collection.
pub struct CollectionRow {
    pub id: String,
    pub revision: i64,
}

/// What a `CollectionRow` stands for.
#[verifier::ext_equal]
pub struct CollectionModel {
    pub id: Seq<char>,
    pub revision: i64,
}

impl View for CollectionRow {
    type V = CollectionModel;

    open spec fn view(&self) -> CollectionModel {
        CollectionModel {
            id: self.id@,
            revision: self.revision,
        }
    }
}

/// Where a collection stands in the hierarchy.
pub struct StructureRow {
    pub collection: String,
    pub parent: Option<String>,
    pub position: i64,
}

/// What a `StructureRow` stands for.
#[verifier::ext_equal]
pub struct StructureModel {
    pub collection: Seq<char>,
    pub parent: Option<Seq<char>>,
    pub position: i64,
}

impl View for StructureRow {
    type V = StructureModel;

    open spec fn view(&self) -> StructureModel {
        StructureModel {
            collection: self.collection@,
            parent: support::text_of(self.parent),
            position: self.position,
        }
    }
}

/// A synonym of a keyword.
pub struct SynonymRow {
    pub keyword: i64,
    pub synonym: String,
    pub provenance: String,
}

/// What a `SynonymRow` stands for.
#[verifier::ext_equal]
pub struct SynonymModel {
    pub keyword: i64,
    pub synonym: Seq<char>,
    pub provenance: Seq<char>,
}

impl View for SynonymRow {
    type V = SynonymModel;

    open spec fn view(&self) -> SynonymModel {
        SynonymModel {
            keyword: self.keyword,
            synonym: self.synonym@,
            provenance: self.provenance@,
        }
    }
}

/// A relation between two images.
pub struct RelationRow {
    pub sequence: i64,
    pub source_key: String,
    pub kind: String,
    pub from_image: String,
    pub to_image: String,
    pub position: i64,
    pub provenance: String,
}

/// What a `RelationRow` stands for.
#[verifier::ext_equal]
pub struct RelationModel {
    pub sequence: i64,
    pub source_key: Seq<char>,
    pub kind: Seq<char>,
    pub from_image: Seq<char>,
    pub to_image: Seq<char>,
    pub position: i64,
    pub provenance: Seq<char>,
}

impl View for RelationRow {
    type V = RelationModel;

    open spec fn view(&self) -> RelationModel {
        RelationModel {
            sequence: self.sequence,
            source_key: self.source_key@,
            kind: self.kind@,
            from_image: self.from_image@,
            to_image: self.to_image@,
            position: self.position,
            provenance: self.provenance@,
        }
    }
}

/// The flag of an image.
pub struct FlagRow {
    pub sequence: i64,
    pub flag: String,
    pub provenance: String,
}

/// What a `FlagRow` stands for.
#[verifier::ext_equal]
pub struct FlagModel {
    pub sequence: i64,
    pub flag: Seq<char>,
    pub provenance: Seq<char>,
}

impl View for FlagRow {
    type V = FlagModel;

    open spec fn view(&self) -> FlagModel {
        FlagModel {
            sequence: self.sequence,
            flag: self.flag@,
            provenance: self.provenance@,
        }
    }
}

/// How a catalog's images are organized.
pub struct Organization {
    pub collections: Vec<CollectionRow>,
    pub structure: Vec<StructureRow>,
    pub keywords: Vec<i64>,
    pub synonyms: Vec<SynonymRow>,
    pub relations: Vec<RelationRow>,
    pub flags: Vec<FlagRow>,
    pub membership: Membership,
    /// The last relation number given out.
    pub relation_high: i64,
}

/// What an `Organization` stands for, but for its memberships.
#[verifier::ext_equal]
pub struct OrganizationModel {
    pub collections: Seq<CollectionModel>,
    pub structure: Seq<StructureModel>,
    pub keywords: Seq<i64>,
    pub synonyms: Seq<SynonymModel>,
    pub relations: Seq<RelationModel>,
    pub flags: Seq<FlagModel>,
    pub relation_high: i64,
}

impl View for Organization {
    type V = OrganizationModel;

    open spec fn view(&self) -> OrganizationModel {
        OrganizationModel {
            collections: support::models(self.collections@),
            structure: support::models(self.structure@),
            keywords: self.keywords@,
            synonyms: support::models(self.synonyms@),
            relations: support::models(self.relations@),
            flags: support::models(self.flags@),
            relation_high: self.relation_high,
        }
    }
}

pub open spec fn collection_with_id(id: Seq<char>) -> spec_fn(CollectionModel) -> bool {
    |r: CollectionModel| r.id == id
}

pub open spec fn structure_of(collection: Seq<char>) -> spec_fn(StructureModel) -> bool {
    |r: StructureModel| r.collection == collection
}

pub open spec fn synonym_for(keyword: i64, synonym: Seq<char>) -> spec_fn(SynonymModel) -> bool {
    |r: SynonymModel| r.keyword == keyword && r.synonym == synonym
}

pub open spec fn relation_with_key(key: Seq<char>) -> spec_fn(RelationModel) -> bool {
    |r: RelationModel| r.source_key == key
}

impl OrganizationModel {
    /// The collection with an identity.
    pub open spec fn collection_at(self, id: Seq<char>) -> Option<int> {
        support::first_where(self.collections, collection_with_id(id))
    }

    /// The place of a collection in the hierarchy.
    pub open spec fn structure_at(self, collection: Seq<char>) -> Option<int> {
        support::first_where(self.structure, structure_of(collection))
    }

    /// A synonym of a keyword.
    pub open spec fn synonym_at(self, keyword: i64, synonym: Seq<char>) -> Option<int> {
        support::first_where(self.synonyms, synonym_for(keyword, synonym))
    }

    /// The relation that a source key stands for.
    pub open spec fn relation_at(self, key: Seq<char>) -> Option<int> {
        support::first_where(self.relations, relation_with_key(key))
    }
}

impl Organization {
    pub(crate) fn find_collection_at(&self, id: &str) -> (r: Option<usize>)
        ensures
            match r {
                Some(i) => i < self.collections@.len() && self@.collection_at(id@) == Some(i as int)
                    && collection_with_id(id@)(self.collections@[i as int]@),
                None => self@.collection_at(id@) is None,
            },
    {
        let test = |r: &CollectionRow| -> (b: bool)
            ensures b == collection_with_id(id@)(r@)
        {
            same(r.id.as_str(), id)
        };
        find(&self.collections, test, Ghost(collection_with_id(id@)))
    }

    pub(crate) fn find_structure_at(&self, collection: &str) -> (r: Option<usize>)
        ensures
            match r {
                Some(i) => i < self.structure@.len() && self@.structure_at(collection@) == Some(i as int)
                    && structure_of(collection@)(self.structure@[i as int]@),
                None => self@.structure_at(collection@) is None,
            },
    {
        let test = |r: &StructureRow| -> (b: bool)
            ensures b == structure_of(collection@)(r@)
        {
            same(r.collection.as_str(), collection)
        };
        find(&self.structure, test, Ghost(structure_of(collection@)))
    }

    pub(crate) fn find_synonym_at(&self, keyword: i64, synonym: &str) -> (r: Option<usize>)
        ensures
            match r {
                Some(i) => i < self.synonyms@.len() && self@.synonym_at(keyword, synonym@) == Some(i as int)
                    && synonym_for(keyword, synonym@)(self.synonyms@[i as int]@),
                None => self@.synonym_at(keyword, synonym@) is None,
            },
    {
        let test = |r: &SynonymRow| -> (b: bool)
            ensures b == synonym_for(keyword, synonym@)(r@)
        {
            r.keyword == keyword && same(r.synonym.as_str(), synonym)
        };
        find(&self.synonyms, test, Ghost(synonym_for(keyword, synonym@)))
    }

    pub(crate) fn find_relation_at(&self, key: &str) -> (r: Option<usize>)
        ensures
            match r {
                Some(i) => i < self.relations@.len() && self@.relation_at(key@) == Some(i as int)
                    && relation_with_key(key@)(self.relations@[i as int]@),
                None => self@.relation_at(key@) is None,
            },
    {
        let test = |r: &RelationRow| -> (b: bool)
            ensures b == relation_with_key(key@)(r@)
        {
            same(r.source_key.as_str(), key)
        };
        find(&self.relations, test, Ghost(relation_with_key(key@)))
    }
}

impl Organization {
    /// An organization without anything in it.
    pub fn new() -> (o: Self)
        ensures
            o@ == OrganizationModel::empty(),
            o.membership.wf(),
    {
        let o: Organization = Organization {
            collections: Vec::new(),
            structure: Vec::new(),
            keywords: Vec::new(),
            synonyms: Vec::new(),
            relations: Vec::new(),
            flags: Vec::new(),
            membership: Membership::new(),
            relation_high: 0,
        };
        assert(o@ =~= OrganizationModel::empty());
        o
    }
}

impl OrganizationModel {
    /// An organization without anything in it.
    pub open spec fn empty() -> Self {
        OrganizationModel {
            collections: Seq::empty(),
            structure: Seq::empty(),
            keywords: Seq::empty(),
            synonyms: Seq::empty(),
            relations: Seq::empty(),
            flags: Seq::empty(),
            relation_high: 0,
        }
    }

    /// The collection directly above a collection.
    pub open spec fn parent_of(self, collection: Seq<char>) -> Option<Seq<char>> {
        match self.structure_at(collection) {
            Some(i) => self.structure[i].parent,
            None => None,
        }
    }

    /// The collection so many levels above a collection.
    pub open spec fn ancestor(self, collection: Seq<char>, levels: nat) -> Option<Seq<char>>
        decreases levels,
    {
        if levels == 0 {
            Some(collection)
        } else {
            match self.parent_of(collection) {
                None => None,
                Some(p) => self.ancestor(p, (levels - 1) as nat),
            }
        }
    }

    /// No collection stands above itself.
    pub open spec fn acyclic(self) -> bool {
        forall|c: Seq<char>, n: nat| n > 0 ==> #[trigger] self.ancestor(c, n) != Some(c)
    }

    /// A collection stands above another one, or is that one.
    pub open spec fn above(self, top: Seq<char>, collection: Seq<char>) -> bool {
        exists|n: nat| n <= HIERARCHY_LEVELS && #[trigger] self.ancestor(collection, n) == Some(top)
    }

    /// Why a collection cannot be placed.
    pub open spec fn placement_refusal(self, p: PlacementModel) -> Option<CatalogError> {
        if !small_value(p.collection) {
            Some(CatalogError::ValueBounds)
        } else if p.position < 0 {
            Some(CatalogError::NegativeOrder)
        } else if self.collection_at(p.collection) is None {
            Some(CatalogError::CollectionMissing)
        } else {
            match p.parent {
                Some(parent) => if !small_value(parent) {
                    Some(CatalogError::ValueBounds)
                } else if parent == p.collection {
                    Some(CatalogError::SelfParent)
                } else if self.collection_at(parent) is None {
                    Some(CatalogError::ParentMissing)
                } else if self.above(p.collection, parent) {
                    Some(CatalogError::HierarchyCycle)
                } else if self.ancestor(parent, HIERARCHY_LEVELS as nat) is Some {
                    Some(CatalogError::HierarchyDepth)
                } else {
                    self.revision_refusal(p.collection)
                },
                None => self.revision_refusal(p.collection),
            }
        }
    }

    /// Why a collection's revision cannot be advanced.
    pub open spec fn revision_refusal(self, collection: Seq<char>) -> Option<CatalogError> {
        match self.collection_at(collection) {
            None => Some(CatalogError::CollectionMissing),
            Some(i) => if self.collections[i].revision == i64::MAX {
                Some(CatalogError::Exhausted)
            } else {
                None
            },
        }
    }

    /// The organization with a collection's revision advanced.
    pub open spec fn revised(self, collection: Seq<char>) -> Self {
        match self.collection_at(collection) {
            None => self,
            Some(i) => OrganizationModel {
                collections: self.collections.update(
                    i,
                    CollectionModel {
                        revision: (self.collections[i].revision + 1) as i64,
                        ..self.collections[i]
                    },
                ),
                ..self
            },
        }
    }

    /// The organization with a collection placed.
    pub open spec fn placed(self, p: PlacementModel) -> Self {
        OrganizationModel {
            structure: support::put(
                self.structure,
                structure_of(p.collection),
                StructureModel {
                    collection: p.collection,
                    parent: p.parent,
                    position: p.position,
                },
            ),
            ..self.revised(p.collection)
        }
    }
}

/// A name that the organization takes.
pub open spec fn small_value(s: Seq<char>) -> bool {
    0 < s.len() && support::byte_length(s) <= VALUE_BYTES && !support::has_nul(s)
}

/// Whether the organization takes a name.
pub fn small(s: &str) -> (r: Result<(), CatalogError>)
    ensures
        match r {
            Ok(()) => small_value(s@),
            Err(e) => !small_value(s@) && e == CatalogError::ValueBounds,
        },
{
    if !s.is_empty() && byte_len(s) <= VALUE_BYTES && !contains_nul(s) {
        Ok(())
    } else {
        Err(CatalogError::ValueBounds)
    }
}

/// The ancestors of a collection go on or end.
proof fn lemma_ancestor_step(m: OrganizationModel, c: Seq<char>, n: nat)
    ensures
        m.ancestor(c, n + 1) == match m.ancestor(c, n) {
            Some(a) => m.parent_of(a),
            None => None,
        },
    decreases n,
{
    reveal_with_fuel(OrganizationModel::ancestor, 3);
    if n > 0 {
        match m.parent_of(c) {
            Some(p) => lemma_ancestor_step(m, p, (n - 1) as nat),
            None => {},
        }
    }
}

/// Ancestors of an ancestor are ancestors.
proof fn lemma_ancestor_sum(m: OrganizationModel, c: Seq<char>, a: nat, b: nat)
    ensures
        m.ancestor(c, a + b) == match m.ancestor(c, a) {
            Some(x) => m.ancestor(x, b),
            None => None,
        },
    decreases a,
{
    if a > 0 {
        match m.parent_of(c) {
            Some(p) => lemma_ancestor_sum(m, p, (a - 1) as nat, b),
            None => {},
        }
    }
}

/// Where a collection's parent changed, the ancestors of a collection below which
/// it does not stand are the same.
proof fn lemma_ancestor_kept(
    m: OrganizationModel,
    after: OrganizationModel,
    c: Seq<char>,
    target: Seq<char>,
    n: nat,
)
    requires
        forall|x: Seq<char>| x != target ==> #[trigger] after.parent_of(x) == m.parent_of(x),
        forall|j: nat| j < n ==> #[trigger] m.ancestor(c, j) != Some(target),
    ensures
        after.ancestor(c, n) == m.ancestor(c, n),
    decreases n,
{
    if n > 0 {
        assert(m.ancestor(c, 0) != Some(target));
        match m.parent_of(c) {
            Some(p) => {
                assert forall|j: nat| j < n - 1 implies #[trigger] m.ancestor(p, j) != Some(
                    target,
                ) by {
                    assert(m.ancestor(c, j + 1) == m.ancestor(p, j));
                }
                lemma_ancestor_kept(m, after, p, target, (n - 1) as nat);
            },
            None => {},
        }
    }
}

/// A collection never comes to stand above itself, however collections are
/// placed.
pub proof fn law_placement_keeps_hierarchy_acyclic(m: OrganizationModel, p: PlacementModel)
    requires
        m.acyclic(),
        m.placement_refusal(p) is None,
    ensures
        m.placed(p).acyclic(),
{
    let after = m.placed(p);
    let target = p.collection;
    let row = StructureModel {
        collection: p.collection,
        parent: p.parent,
        position: p.position,
    };
    assert forall|x: Seq<char>| x != target implies #[trigger] after.parent_of(x) == m.parent_of(
        x,
    ) by {
        support::lemma_first_where(m.structure, structure_of(target));
        match support::first_where(m.structure, structure_of(target)) {
            Some(i) => {
                support::lemma_replaced(m.structure, after.structure, i, structure_of(x));
                support::lemma_first_where(m.structure, structure_of(x));
            },
            None => {
                support::lemma_pushed(m.structure, after.structure, structure_of(x));
                support::lemma_first_where(m.structure, structure_of(x));
            },
        }
    }
    assert(after.parent_of(target) == p.parent) by {
        support::lemma_first_where(m.structure, structure_of(target));
        match support::first_where(m.structure, structure_of(target)) {
            Some(i) => {
                support::lemma_replaced(m.structure, after.structure, i, structure_of(target));
            },
            None => {
                support::lemma_pushed(m.structure, after.structure, structure_of(target));
            },
        }
    }
    assert forall|n: nat| n > 0 implies #[trigger] after.ancestor(target, n) != Some(target) by {
        match p.parent {
            None => {},
            Some(parent) => {
                assert forall|j: nat| #[trigger] m.ancestor(parent, j) != Some(target) by {
                    if j > HIERARCHY_LEVELS {
                        let rest = (j - HIERARCHY_LEVELS) as nat;
                        lemma_ancestor_sum(m, parent, HIERARCHY_LEVELS as nat, rest);
                    }
                }
                lemma_ancestor_kept(m, after, parent, target, (n - 1) as nat);
            },
        }
    }
    assert forall|c: Seq<char>, n: nat| n > 0 implies #[trigger] after.ancestor(c, n) != Some(
        c,
    ) by {
        if after.ancestor(c, n) == Some(c) {
            if forall|j: nat| j < n ==> #[trigger] m.ancestor(c, j) != Some(target) {
                lemma_ancestor_kept(m, after, c, target, n);
            } else {
                let hit = choose|j: nat| j < n && #[trigger] m.ancestor(c, j) == Some(target);
                lemma_first_hit(m, c, target, hit);
                let first = choose|j: nat|
                    j <= hit && m.ancestor(c, j) == Some(target) && forall|i: nat|
                        i < j ==> #[trigger] m.ancestor(c, i) != Some(target);
                lemma_ancestor_kept(m, after, c, target, first);
                lemma_ancestor_sum(after, c, first, (n - first) as nat);
                lemma_ancestor_sum(after, target, (n - first) as nat, first);
                assert(after.ancestor(target, n) == Some(target));
            }
        }
    }
}

proof fn lemma_first_hit(m: OrganizationModel, c: Seq<char>, target: Seq<char>, hit: nat)
    requires
        m.ancestor(c, hit) == Some(target),
    ensures
        exists|j: nat|
            j <= hit && m.ancestor(c, j) == Some(target) && forall|i: nat|
                i < j ==> #[trigger] m.ancestor(c, i) != Some(target),
    decreases hit,
{
    if exists|i: nat| i < hit && #[trigger] m.ancestor(c, i) == Some(target) {
        let i = choose|i: nat| i < hit && #[trigger] m.ancestor(c, i) == Some(target);
        lemma_first_hit(m, c, target, i);
        let j = choose|j: nat|
            j <= i && m.ancestor(c, j) == Some(target) && forall|k: nat|
                k < j ==> #[trigger] m.ancestor(c, k) != Some(target);
        assert(j <= hit);
    } else {
        assert(m.ancestor(c, hit) == Some(target));
    }
}

fn check_ancestry(o: &Organization, collection: &str, parent: &str) -> (r: Result<
    (),
    CatalogError,
>)
    ensures
        match r {
            Ok(()) => !o@.above(collection@, parent@) && o@.ancestor(
                parent@,
                HIERARCHY_LEVELS as nat,
            ) is None,
            Err(e) => if o@.above(collection@, parent@) {
                e == CatalogError::HierarchyCycle
            } else {
                o@.ancestor(parent@, HIERARCHY_LEVELS as nat) is Some && e
                    == CatalogError::HierarchyDepth
            },
        },
{
    let mut current: String = parent.to_owned();
    let mut depth: usize = 0;
    loop
        invariant
            depth <= HIERARCHY_LEVELS,
            o@.ancestor(parent@, depth as nat) == Some(current@),
            forall|n: nat| n < depth ==> #[trigger] o@.ancestor(parent@, n) != Some(collection@),
        decreases HIERARCHY_LEVELS - depth,
    {
        if same(current.as_str(), collection) {
            assert(o@.ancestor(parent@, depth as nat) == Some(collection@));
            return Err(CatalogError::HierarchyCycle);
        }
        if depth == HIERARCHY_LEVELS {
            return Err(CatalogError::HierarchyDepth);
        }
        proof {
            lemma_ancestor_step(o@, parent@, depth as nat);
        }
        depth += 1;
        let above: Option<String> = match o.find_structure_at(current.as_str()) {
            Some(i) => {
                assert(o@.structure[i as int] == o.structure@[i as int]@);
                copy_option(&o.structure[i].parent)
            },
            None => None,
        };
        match above {
            Some(p) => current = p,
            None => {
                proof {
                    assert forall|n: nat| n >= depth implies #[trigger] o@.ancestor(parent@, n)
                        is None by {
                        lemma_ancestor_sum(o@, parent@, depth as nat, (n - depth) as nat);
                    }
                }
                return Ok(());
            },
        }
    }
}

/// Places a collection in the hierarchy, after its ancestors were checked.
pub fn place_collection(o: &mut Organization, p: &CollectionPlacement) -> (r: Result<
    (),
    CatalogError,
>)
    ensures
        match old(o)@.placement_refusal(p@) {
            None => r is Ok && final(o)@ == old(o)@.placed(p@) && final(o).membership == old(
                o,
            ).membership,
            Some(e) => r == Err::<(), CatalogError>(e) && *final(o) == *old(o),
        },
{
    match small(p.collection.as_str()) {
        Err(e) => return Err(e),
        Ok(()) => {},
    }
    if p.position < 0 {
        return Err(CatalogError::NegativeOrder);
    }
    let c: usize = match o.find_collection_at(p.collection.as_str()) {
        None => return Err(CatalogError::CollectionMissing),
        Some(c) => c,
    };
    if let Some(parent) = &p.parent {
        match small(parent.as_str()) {
            Err(e) => return Err(e),
            Ok(()) => {},
        }
        if same(parent.as_str(), p.collection.as_str()) {
            return Err(CatalogError::SelfParent);
        }
        if o.find_collection_at(parent.as_str()).is_none() {
            return Err(CatalogError::ParentMissing);
        }
        match check_ancestry(o, p.collection.as_str(), parent.as_str()) {
            Err(e) => return Err(e),
            Ok(()) => {},
        }
    }
    if o.collections[c].revision == i64::MAX {
        return Err(CatalogError::Exhausted);
    }
    let row: StructureRow = StructureRow {
        collection: p.collection.clone(),
        parent: copy_option(&p.parent),
        position: p.position,
    };
    match o.find_structure_at(p.collection.as_str()) {
        Some(i) => o.structure.set(i, row),
        None => o.structure.push(row),
    }
    o.collections[c].revision = o.collections[c].revision + 1;
    assert(o@ =~= old(o)@.placed(p@));
    Ok(())
}

impl Copied for CollectionRow {
    fn copied(&self) -> (c: Self) {
        CollectionRow {
            id: self.id.clone(),
            revision: self.revision,
        }
    }
}

impl Copied for StructureRow {
    fn copied(&self) -> (c: Self) {
        StructureRow {
            collection: self.collection.clone(),
            parent: copy_option(&self.parent),
            position: self.position,
        }
    }
}

impl Copied for SynonymRow {
    fn copied(&self) -> (c: Self) {
        SynonymRow {
            keyword: self.keyword,
            synonym: self.synonym.clone(),
            provenance: self.provenance.clone(),
        }
    }
}

impl Copied for RelationRow {
    fn copied(&self) -> (c: Self) {
        RelationRow {
            sequence: self.sequence,
            source_key: self.source_key.clone(),
            kind: self.kind.clone(),
            from_image: self.from_image.clone(),
            to_image: self.to_image.clone(),
            position: self.position,
            provenance: self.provenance.clone(),
        }
    }
}

impl Copied for FlagRow {
    fn copied(&self) -> (c: Self) {
        FlagRow {
            sequence: self.sequence,
            flag: self.flag.clone(),
            provenance: self.provenance.clone(),
        }
    }
}

/// Why an image cannot be put into a collection.
pub open spec fn membership_refusal(
    m: TablesModel,
    o: OrganizationModel,
    expected: catalog_images::IdentityModel,
    collection: Seq<char>,
    position: i64,
    evidence: Seq<char>,
) -> Option<CatalogError> {
    if !small_value(collection) {
        Some(CatalogError::ValueBounds)
    } else if position < 0 {
        Some(CatalogError::NegativeOrder)
    } else if support::byte_length(evidence) > PROVENANCE_BYTES {
        Some(CatalogError::ProvenanceBounds)
    } else {
        match m.identity_of(expected.image_id) {
            Err(e) => Some(e),
            Ok(found) => if found != expected {
                Some(CatalogError::IdentityChanged)
            } else if o.collection_at(collection) is None {
                Some(CatalogError::CollectionMissing)
            } else {
                match membership_advanced(m, expected.image_id, collection, position) {
                    Err(e) => Some(e),
                    Ok(_) => o.revision_refusal(collection),
                }
            },
        }
    }
}

/// The tables and the revision after an image was put into a collection.
pub open spec fn membership_advanced(
    m: TablesModel,
    image: Seq<char>,
    collection: Seq<char>,
    position: i64,
) -> Result<(TablesModel, i64), CatalogError> {
    catalog_metadata::advance_outcome(
        m,
        image,
        "collection_membership"@,
        tables::DetailModel::CollectionMembership { collection, position },
        false,
    )
}

/// An image's membership is the only one that changed.
pub open spec fn member_put(
    before: Membership,
    after: Membership,
    key: ordering::Key,
    position: i64,
    evidence: Seq<char>,
) -> bool {
    &&& after.backfill == before.backfill
    &&& forall|k: ordering::Key| #[trigger]
        after.provenance_of(k) == if k == key {
            Some(evidence)
        } else {
            before.provenance_of(k)
        }
    &&& forall|k: ordering::Key| #[trigger]
        after.position_of(k) == if k == key {
            Some(position)
        } else {
            before.position_of(k)
        }
}

/// Puts an image into a collection at a position, and gives the image's new
/// metadata revision.
pub fn set_image_collection_membership(
    db: &mut Tables,
    o: &mut Organization,
    expected: &ImageMetadataIdentity,
    collection: &str,
    position: i64,
    evidence: &str,
) -> (r: Result<i64, CatalogError>)
    ensures
        match membership_refusal(
            old(db)@,
            old(o)@,
            expected@,
            collection@,
            position,
            evidence@,
        ) {
            Some(e) => r == Err::<i64, CatalogError>(e) && *final(db) == *old(db) && *final(o)
                == *old(o),
            None => {
                let image = old(db)@.images[old(db)@.image_at(expected.image_id@)->0];
                &&& membership_advanced(old(db)@, expected.image_id@, collection@, position) == Ok::<
                    (TablesModel, i64),
                    CatalogError,
                >((final(db)@, r->Ok_0))
                &&& r is Ok
                &&& final(o)@ == old(o)@.revised(collection@)
                &&& member_put(
                    old(o).membership,
                    final(o).membership,
                    (collection@, image.sequence),
                    position,
                    evidence@,
                )
            },
        },
        old(o).membership.wf() ==> final(o).membership.wf(),
{
    match small(collection) {
        Err(e) => return Err(e),
        Ok(()) => {},
    }
    if position < 0 {
        return Err(CatalogError::NegativeOrder);
    }
    if byte_len(evidence) > PROVENANCE_BYTES {
        return Err(CatalogError::ProvenanceBounds);
    }
    match require_image_metadata_identity(db, expected) {
        Err(e) => return Err(e),
        Ok(()) => {},
    }
    let sequence: i64 = match db.find_image_at(expected.image_id.as_str()) {
        None => return Err(CatalogError::ImageNotFound),
        Some(i) => {
            assert(db@.images[i as int] == db.images@[i as int]@);
            db.images[i].sequence
        },
    };
    let c: usize = match o.find_collection_at(collection) {
        None => return Err(CatalogError::CollectionMissing),
        Some(c) => c,
    };
    let exhausted: bool = o.collections[c].revision == i64::MAX;
    if exhausted {
        // A revision that cannot be advanced leaves the image as it is, too.
        assert(o@.collections[c as int] == o.collections@[c as int]@);
        return Err(CatalogError::Exhausted);
    }
    let revision: i64 = match advance(
        db,
        expected.image_id.as_str(),
        "collection_membership",
        Detail::CollectionMembership { collection: collection.to_owned(), position },
        false,
    ) {
        Err(e) => return Err(e),
        Ok(revision) => revision,
    };
    let ghost before = o.membership;
    o.membership.put_member(collection, sequence, evidence);
    let ghost added = o.membership;
    match o.membership.set_position(collection, sequence, position) {
        Err(e) => {
            proof {
                assert(added.is_member((collection@, sequence)));
                assert(false);
            }
        },
        Ok(()) => {},
    }
    proof {
        assert forall|k: ordering::Key| #[trigger]
            o.membership.provenance_of(k) == if k == (collection@, sequence) {
                Some(evidence@)
            } else {
                before.provenance_of(k)
            } by {
            assert(added.provenance_of(k) == o.membership.provenance_of(k));
        }
        assert forall|k: ordering::Key| #[trigger]
            o.membership.position_of(k) == if k == (collection@, sequence) {
                Some(position)
            } else {
                before.position_of(k)
            } by {
            assert(added.position_of(k) == before.position_of(k));
        }
    }
    o.collections[c].revision = o.collections[c].revision + 1;
    assert(o@ =~= old(o)@.revised(collection@));
    Ok(revision)
}

/// Why a keyword cannot be given a synonym.
pub open spec fn synonym_refusal(
    o: OrganizationModel,
    keyword: i64,
    synonym: Seq<char>,
    evidence: Seq<char>,
) -> Option<CatalogError> {
    if !small_value(synonym) {
        Some(CatalogError::ValueBounds)
    } else if support::byte_length(evidence) > PROVENANCE_BYTES {
        Some(CatalogError::ProvenanceBounds)
    } else if !o.keywords.contains(keyword) {
        Some(CatalogError::KeywordMissing)
    } else {
        None
    }
}

/// Gives a keyword a synonym, or replaces the provenance of one it has.
pub fn add_keyword_synonym(o: &mut Organization, keyword: i64, synonym: &str, evidence: &str) -> (r:
    Result<(), CatalogError>)
    ensures
        final(o).membership == old(o).membership,
        match synonym_refusal(old(o)@, keyword, synonym@, evidence@) {
            Some(e) => r == Err::<(), CatalogError>(e) && *final(o) == *old(o),
            None => r is Ok && final(o)@ == (OrganizationModel {
                synonyms: support::put(
                    old(o)@.synonyms,
                    synonym_for(keyword, synonym@),
                    SynonymModel { keyword, synonym: synonym@, provenance: evidence@ },
                ),
                ..old(o)@
            }),
        },
{
    match small(synonym) {
        Err(e) => return Err(e),
        Ok(()) => {},
    }
    if byte_len(evidence) > PROVENANCE_BYTES {
        return Err(CatalogError::ProvenanceBounds);
    }
    if !has_keyword(&o.keywords, keyword) {
        return Err(CatalogError::KeywordMissing);
    }
    let row: SynonymRow = SynonymRow {
        keyword,
        synonym: synonym.to_owned(),
        provenance: evidence.to_owned(),
    };
    match o.find_synonym_at(keyword, synonym) {
        Some(i) => o.synonyms.set(i, row),
        None => o.synonyms.push(row),
    }
    assert(o@ =~= OrganizationModel {
        synonyms: support::put(
            old(o)@.synonyms,
            synonym_for(keyword, synonym@),
            SynonymModel { keyword, synonym: synonym@, provenance: evidence@ },
        ),
        ..old(o)@
    });
    Ok(())
}

fn has_keyword(keywords: &Vec<i64>, keyword: i64) -> (r: bool)
    ensures
        r == keywords@.contains(keyword),
{
    let mut i: usize = 0;
    while i < keywords.len()
        invariant
            i <= keywords@.len(),
            forall|j: int| 0 <= j < i ==> keywords@[j] != keyword,
        decreases keywords@.len() - i,
    {
        if keywords[i] == keyword {
            assert(keywords@[i as int] == keyword);
            return true;
        }
        i += 1;
    }
    false
}

/// The tie of two images that a source key stands for.
pub open spec fn relation(
    sequence: i64,
    source_key: Seq<char>,
    kind: Seq<char>,
    from: Seq<char>,
    to: Seq<char>,
    position: i64,
    evidence: Seq<char>,
) -> RelationModel {
    RelationModel {
        sequence,
        source_key,
        kind,
        from_image: from,
        to_image: to,
        position,
        provenance: evidence,
    }
}

/// What retaining a relation gives: the organization and the relation's number.
pub open spec fn relation_outcome(
    m: TablesModel,
    o: OrganizationModel,
    source_key: Seq<char>,
    kind: Seq<char>,
    from: catalog_images::VariantKeyModel,
    to: catalog_images::VariantKeyModel,
    position: i64,
    evidence: Seq<char>,
) -> Result<(OrganizationModel, i64), CatalogError> {
    if !small_value(source_key) || !small_value(kind) {
        Err(CatalogError::ValueBounds)
    } else if position < 0 {
        Err(CatalogError::NegativeOrder)
    } else {
        match (m.id_of(from), m.id_of(to)) {
            (Some(a), Some(b)) => if support::byte_length(evidence) > PROVENANCE_BYTES {
                Err(CatalogError::ProvenanceBounds)
            } else {
                match o.relation_at(source_key) {
                    Some(i) => if o.relations[i] == relation(
                        o.relations[i].sequence,
                        source_key,
                        kind,
                        a,
                        b,
                        position,
                        evidence,
                    ) {
                        Ok((o, o.relations[i].sequence))
                    } else {
                        Err(CatalogError::RelationChanged)
                    },
                    None => if o.relation_high == i64::MAX {
                        Err(CatalogError::Exhausted)
                    } else {
                        let next = (o.relation_high + 1) as i64;
                        Ok(
                            (
                                OrganizationModel {
                                    relations: o.relations.push(
                                        relation(
                                            next,
                                            source_key,
                                            kind,
                                            a,
                                            b,
                                            position,
                                            evidence,
                                        ),
                                    ),
                                    relation_high: next,
                                    ..o
                                },
                                next,
                            ),
                        )
                    },
                }
            },
            _ => Err(CatalogError::ImageNotFound),
        }
    }
}

/// Retains a relation of two images under its source key. The same relation can
/// be retained again, another one cannot take its key.
pub fn retain_image_relation(
    db: &Tables,
    o: &mut Organization,
    source_key: &str,
    kind: &str,
    from: &VariantKey,
    to: &VariantKey,
    position: i64,
    evidence: &str,
) -> (r: Result<i64, CatalogError>)
    ensures
        final(o).membership == old(o).membership,
        match relation_outcome(
            db@,
            old(o)@,
            source_key@,
            kind@,
            from@,
            to@,
            position,
            evidence@,
        ) {
            Ok((after, sequence)) => r == Ok::<i64, CatalogError>(sequence) && final(o)@ == after,
            Err(e) => r == Err::<i64, CatalogError>(e) && *final(o) == *old(o),
        },
{
    match small(source_key) {
        Err(e) => return Err(e),
        Ok(()) => {},
    }
    match small(kind) {
        Err(e) => return Err(e),
        Ok(()) => {},
    }
    if position < 0 {
        return Err(CatalogError::NegativeOrder);
    }
    let a: String = match id(db, from) {
        Err(e) => return Err(e),
        Ok(a) => a,
    };
    let b: String = match id(db, to) {
        Err(e) => return Err(e),
        Ok(b) => b,
    };
    if byte_len(evidence) > PROVENANCE_BYTES {
        return Err(CatalogError::ProvenanceBounds);
    }
    if let Some(i) = o.find_relation_at(source_key) {
        assert(o@.relations[i as int] == o.relations@[i as int]@);
        let row = &o.relations[i];
        if same(row.kind.as_str(), kind) && same(row.from_image.as_str(), a.as_str()) && same(
            row.to_image.as_str(),
            b.as_str(),
        ) && row.position == position && same(row.provenance.as_str(), evidence) {
            return Ok(row.sequence);
        }
        return Err(CatalogError::RelationChanged);
    }
    if o.relation_high == i64::MAX {
        return Err(CatalogError::Exhausted);
    }
    o.relation_high = o.relation_high + 1;
    o.relations.push(
        RelationRow {
            sequence: o.relation_high,
            source_key: source_key.to_owned(),
            kind: kind.to_owned(),
            from_image: a,
            to_image: b,
            position,
            provenance: evidence.to_owned(),
        },
    );
    proof {
        assert(o@ =~= relation_outcome(
            db@,
            old(o)@,
            source_key@,
            kind@,
            from@,
            to@,
            position,
            evidence@,
        )->Ok_0.0);
    }
    Ok(o.relation_high)
}

/// Retaining a relation again under the same source key gives the same number and
/// changes nothing, and no other relation can ever take the key.
pub proof fn law_relation_keys_are_fixed(
    m: TablesModel,
    o: OrganizationModel,
    source_key: Seq<char>,
    kind: Seq<char>,
    from: catalog_images::VariantKeyModel,
    to: catalog_images::VariantKeyModel,
    position: i64,
    evidence: Seq<char>,
)
    requires
        relation_outcome(m, o, source_key, kind, from, to, position, evidence) is Ok,
    ensures
        ({
            let first = relation_outcome(m, o, source_key, kind, from, to, position, evidence);
            relation_outcome(
                m,
                first->Ok_0.0,
                source_key,
                kind,
                from,
                to,
                position,
                evidence,
            ) == first
        }),
        ({
            let first = relation_outcome(m, o, source_key, kind, from, to, position, evidence);
            forall|
                k: Seq<char>,
                f: catalog_images::VariantKeyModel,
                t: catalog_images::VariantKeyModel,
                p: i64,
                e: Seq<char>,
            | #[trigger]
                relation_outcome(m, first->Ok_0.0, source_key, k, f, t, p, e) is Ok ==> k == kind
                    && m.id_of(f) == m.id_of(from) && m.id_of(t) == m.id_of(to) && p == position
                    && e == evidence
        }),
{
    let first = relation_outcome(m, o, source_key, kind, from, to, position, evidence);
    let after = first->Ok_0.0;
    support::lemma_first_where(o.relations, relation_with_key(source_key));
    if o.relation_at(source_key) is None {
        support::lemma_pushed(o.relations, after.relations, relation_with_key(source_key));
    }
}

/// Where a membership comes on the pages of a collection.
pub open spec fn listed_member(
    m: TablesModel,
    ms: Membership,
    collection: Seq<char>,
    row: MemberRow,
) -> Option<(i64, i64)> {
    if row.collection@ == collection && m.image_with_sequence(row.sequence) is Some {
        Some((ms.effective_position((collection, row.sequence)), row.sequence))
    } else {
        None
    }
}

impl TablesModel {
    /// The image with a sequence number.
    pub open spec fn image_with_sequence(self, sequence: i64) -> Option<int> {
        support::first_where(self.images, numbered(sequence))
    }
}

/// What a page shows of a membership.
pub open spec fn member_view(m: TablesModel, ms: Membership, row: MemberRow) -> MembershipModel {
    let image = m.images[m.image_with_sequence(row.sequence)->0];
    MembershipModel {
        key: catalog_images::VariantKeyModel {
            asset_id: image.asset_id,
            variant_id: image.variant_id,
        },
        position: ms.effective_position((row.collection@, row.sequence)),
        provenance: row.provenance@,
    }
}

/// Where memberships come on the pages of a collection.
pub open spec fn member_keys(m: TablesModel, ms: Membership, collection: Seq<char>) -> Seq<
    Option<(i64, i64)>,
> {
    ms.members@.map_values(|row: MemberRow| listed_member(m, ms, collection, row))
}

/// Where relations come on the pages of an image.
pub open spec fn relation_key(m: TablesModel, from: Seq<char>) -> spec_fn(RelationModel) -> Option<
    (i64, i64),
> {
    |r: RelationModel|
        if r.from_image == from && m.image_at(r.to_image) is Some {
            Some((r.sequence, 0i64))
        } else {
            None
        }
}

/// What a page shows of a relation.
pub open spec fn relation_view(
    m: TablesModel,
    from: catalog_images::VariantKeyModel,
    r: RelationModel,
) -> ImageRelationModel {
    let image = m.images[m.image_at(r.to_image)->0];
    ImageRelationModel {
        sequence: r.sequence,
        kind: r.kind,
        from,
        to: catalog_images::VariantKeyModel {
            asset_id: image.asset_id,
            variant_id: image.variant_id,
        },
        position: r.position,
        provenance: r.provenance,
    }
}

/// Where synonyms come on the pages of a keyword.
pub open spec fn synonym_key(keyword: i64) -> spec_fn(SynonymModel) -> Option<Seq<char>> {
    |r: SynonymModel|
        if r.keyword == keyword {
            Some(r.synonym)
        } else {
            None
        }
}

/// Where a page of members starts.
pub open spec fn member_cursor(after: Option<(i64, i64)>) -> (i64, i64) {
    match after {
        Some(a) => a,
        None => (-1i64, 0i64),
    }
}

/// A page of members that is not given out.
pub open spec fn members_refused(after: Option<(i64, i64)>, limit: usize) -> bool {
    limit == 0 || limit > PAGE_LIMIT || member_cursor(after).0 < -1 || member_cursor(after).1 < 0
}

/// These are the members of a collection that come next after a cursor.
pub open spec fn is_member_page(
    m: TablesModel,
    ms: Membership,
    collection: Seq<char>,
    after: (i64, i64),
    limit: nat,
    rows: Seq<(i64, ImageMembership)>,
) -> bool {
    exists|picks: Seq<usize>|
        {
            &&& #[trigger] ordering::is_page::<(i64, i64)>(
                member_keys(m, ms, collection),
                Some(after),
                Some(limit),
                picks,
            )
            &&& rows.len() == picks.len()
            &&& forall|i: int|
                0 <= i < rows.len() ==> (#[trigger] rows[i]).0
                    == ms.members@[picks[i] as int].sequence && rows[i].1@ == member_view(
                    m,
                    ms,
                    ms.members@[picks[i] as int],
                )
        }
}

/// These are the relations of an image that come next after a cursor.
pub open spec fn is_relation_page(
    m: TablesModel,
    o: OrganizationModel,
    from: catalog_images::VariantKeyModel,
    after: (i64, i64),
    limit: nat,
    rows: Seq<ImageRelation>,
) -> bool {
    exists|picks: Seq<usize>|
        {
            &&& #[trigger] ordering::is_page::<(i64, i64)>(
                o.relations.map_values(relation_key(m, m.id_of(from)->0)),
                Some(after),
                Some(limit),
                picks,
            )
            &&& rows.len() == picks.len()
            &&& forall|i: int|
                0 <= i < rows.len() ==> (#[trigger] rows[i])@ == relation_view(
                    m,
                    from,
                    o.relations[picks[i] as int],
                )
        }
}

pub open spec fn numbered(sequence: i64) -> spec_fn(tables::ImageModel) -> bool {
    |r: tables::ImageModel| r.sequence == sequence
}

impl Tables {
    pub(crate) fn find_image_with_sequence(&self, sequence: i64) -> (r: Option<usize>)
        ensures
            match r {
                Some(i) => i < self.images@.len() && self@.image_with_sequence(sequence) == Some(
                    i as int,
                ) && self@.images[i as int] == self.images@[i as int]@,
                None => self@.image_with_sequence(sequence) is None,
            },
    {
        let test = |r: &ImageRow| -> (b: bool)
            ensures b == numbered(sequence)(r@)
        {
            r.sequence == sequence
        };
        find(&self.images, test, Ghost(numbered(sequence)))
    }
}

impl Catalog {
    /// Places a collection in the hierarchy.
    pub fn place_collection(&mut self, placement: &CollectionPlacement) -> (r: Result<
        (),
        CatalogError,
    >)
        ensures
            final(self).organization_only(*old(self)),
            final(self).organization.membership == old(self).organization.membership,
            match old(self).organization@.placement_refusal(placement@) {
                None => r is Ok && final(self).organization@ == old(self).organization@.placed(
                    placement@,
                ),
                Some(e) => r == Err::<(), CatalogError>(e) && *final(self) == *old(self),
            },
    {
        place_collection(&mut self.organization, placement)
    }

    /// Where a collection stands in the hierarchy. One that was never placed
    /// stands first at the top.
    pub fn collection_placement(&self, collection: &str) -> (r: Result<
        CollectionPlacement,
        CatalogError,
    >)
        ensures
            match r {
                Ok(p) => {
                    let o = self.organization@;
                    &&& o.collection_at(collection@) is Some
                    &&& p@ == match o.structure_at(collection@) {
                        Some(i) => PlacementModel {
                            collection: collection@,
                            parent: o.structure[i].parent,
                            position: o.structure[i].position,
                        },
                        None => PlacementModel {
                            collection: collection@,
                            parent: None,
                            position: 0,
                        },
                    }
                },
                Err(e) => self.organization@.collection_at(collection@) is None && e
                    == CatalogError::CollectionMissing,
            },
    {
        let o = &self.organization;
        if o.find_collection_at(collection).is_none() {
            return Err(CatalogError::CollectionMissing);
        }
        match o.find_structure_at(collection) {
            Some(i) => {
                assert(o@.structure[i as int] == o.structure@[i as int]@);
                Ok(
                    CollectionPlacement {
                        collection: collection.to_owned(),
                        parent: copy_option(&o.structure[i].parent),
                        position: o.structure[i].position,
                    },
                )
            },
            None => Ok(
                CollectionPlacement { collection: collection.to_owned(), parent: None, position: 0 },
            ),
        }
    }

    /// Puts an image into a collection at a position, and gives the image's new
    /// metadata revision.
    pub fn set_image_collection_membership(
        &mut self,
        expected: &ImageMetadataIdentity,
        collection: &str,
        position: i64,
        evidence: &str,
    ) -> (r: Result<i64, CatalogError>)
        ensures
            final(self).apart(*old(self)),
            match membership_refusal(
                old(self).tables@,
                old(self).organization@,
                expected@,
                collection@,
                position,
                evidence@,
            ) {
                Some(e) => r == Err::<i64, CatalogError>(e) && *final(self) == *old(self),
                None => {
                    let m = old(self).tables@;
                    let image = m.images[m.image_at(expected.image_id@)->0];
                    &&& r is Ok
                    &&& membership_advanced(m, expected.image_id@, collection@, position) == Ok::<
                        (TablesModel, i64),
                        CatalogError,
                    >((final(self).tables@, r->Ok_0))
                    &&& final(self).organization@ == old(self).organization@.revised(collection@)
                    &&& member_put(
                        old(self).organization.membership,
                        final(self).organization.membership,
                        (collection@, image.sequence),
                        position,
                        evidence@,
                    )
                },
            },
            old(self).organization.membership.wf() ==> final(self).organization.membership.wf(),
    {
        set_image_collection_membership(
            &mut self.tables,
            &mut self.organization,
            expected,
            collection,
            position,
            evidence,
        )
    }

    /// A page of a collection's members, by position and by image.
    pub fn image_collection_members(
        &self,
        collection: &str,
        after: Option<(i64, i64)>,
        limit: usize,
    ) -> (r: Result<Vec<(i64, ImageMembership)>, CatalogError>)
        ensures
            match r {
                Err(e) => members_refused(after, limit) && e == CatalogError::PageBounds,
                Ok(rows) => !members_refused(after, limit) && is_member_page(
                    self.tables@,
                    self.organization.membership,
                    collection@,
                    member_cursor(after),
                    limit as nat,
                    rows@,
                ),
            },
    {
        let cursor: (i64, i64) = match after {
            Some(a) => a,
            None => (-1, 0),
        };
        if limit == 0 || limit > PAGE_LIMIT || cursor.0 < -1 || cursor.1 < 0 {
            return Err(CatalogError::PageBounds);
        }
        let db = &self.tables;
        let ms = &self.organization.membership;
        let mut keys: Vec<Option<(i64, i64)>> = Vec::new();
        let mut i: usize = 0;
        while i < ms.members.len()
            invariant
                i <= ms.members@.len(),
                keys@.len() == i,
                forall|j: int|
                    0 <= j < i ==> #[trigger] keys@[j] == listed_member(
                        db@,
                        *ms,
                        collection@,
                        ms.members@[j],
                    ),
            decreases ms.members@.len() - i,
        {
            let row = &ms.members[i];
            if same(row.collection.as_str(), collection) && db.find_image_with_sequence(
                row.sequence,
            ).is_some() {
                keys.push(Some((ms.position(collection, row.sequence), row.sequence)));
            } else {
                keys.push(None);
            }
            i += 1;
        }
        assert(ordering::keys_of(keys@) =~= member_keys(db@, *ms, collection@));
        let picks: Vec<usize> = ordering::page(&keys, &Some(cursor), Some(limit));
        let mut rows: Vec<(i64, ImageMembership)> = Vec::new();
        let mut n: usize = 0;
        while n < picks.len()
            invariant
                n <= picks@.len(),
                rows@.len() == n,
                ordering::is_page::<(i64, i64)>(
                    member_keys(db@, *ms, collection@),
                    Some(cursor),
                    Some(limit as nat),
                    picks@,
                ),
                forall|j: int|
                    0 <= j < n ==> (#[trigger] rows@[j]).0 == ms.members@[picks@[j] as int].sequence
                        && rows@[j].1@ == member_view(db@, *ms, ms.members@[picks@[j] as int]),
            decreases picks@.len() - n,
        {
            let p: usize = picks[n];
            assert(ordering::follows::<(i64, i64)>(
                Some(cursor),
                member_keys(db@, *ms, collection@)[p as int],
            ));
            let row = &ms.members[p];
            if let Some(k) = db.find_image_with_sequence(row.sequence) {
                let image = &db.images[k];
                rows.push(
                    (
                        row.sequence,
                        ImageMembership {
                            key: VariantKey {
                                asset_id: image.asset_id.clone(),
                                variant_id: image.variant_id.clone(),
                            },
                            position: ms.position(row.collection.as_str(), row.sequence),
                            provenance: row.provenance.clone(),
                        },
                    ),
                );
            }
            n += 1;
        }
        Ok(rows)
    }

    /// Gives a keyword a synonym, or replaces the provenance of one it has.
    pub fn add_keyword_synonym(&mut self, keyword: i64, synonym: &str, evidence: &str) -> (r: Result<
        (),
        CatalogError,
    >)
        ensures
            final(self).organization_only(*old(self)),
            final(self).organization.membership == old(self).organization.membership,
            match synonym_refusal(old(self).organization@, keyword, synonym@, evidence@) {
                Some(e) => r == Err::<(), CatalogError>(e) && *final(self) == *old(self),
                None => r is Ok && final(self).organization@ == (OrganizationModel {
                    synonyms: support::put(
                        old(self).organization@.synonyms,
                        synonym_for(keyword, synonym@),
                        SynonymModel { keyword, synonym: synonym@, provenance: evidence@ },
                    ),
                    ..old(self).organization@
                }),
            },
    {
        add_keyword_synonym(&mut self.organization, keyword, synonym, evidence)
    }

    /// A page of a keyword's synonyms with their provenance, in order.
    pub fn keyword_synonyms(&self, keyword: i64, after: &str, limit: usize) -> (r: Result<
        Vec<(String, String)>,
        CatalogError,
    >)
        ensures
            match r {
                Err(e) => (limit == 0 || limit > PAGE_LIMIT) && e == CatalogError::PageBounds,
                Ok(rows) => 0 < limit <= PAGE_LIMIT && exists|picks: Seq<usize>|
                    {
                        &&& #[trigger] ordering::is_page::<String>(
                            self.organization@.synonyms.map_values(synonym_key(keyword)),
                            Some(after@),
                            Some(limit as nat),
                            picks,
                        )
                        &&& rows@.len() == picks.len()
                        &&& forall|i: int|
                            0 <= i < rows@.len() ==> (#[trigger] rows@[i]).0@
                                == self.organization@.synonyms[picks[i] as int].synonym
                                && rows@[i].1@
                                == self.organization@.synonyms[picks[i] as int].provenance
                    },
            },
    {
        if limit == 0 || limit > PAGE_LIMIT {
            return Err(CatalogError::PageBounds);
        }
        let o = &self.organization;
        let key = |r: &SynonymRow| -> (k: Option<String>)
            ensures ordering::key_of(k) == synonym_key(keyword)(r@)
        {
            if r.keyword == keyword {
                Some(r.synonym.clone())
            } else {
                None
            }
        };
        let start: Option<String> = Some(after.to_owned());
        let picks: Vec<usize> = page_rows(
            &o.synonyms,
            key,
            Ghost(synonym_key(keyword)),
            &start,
            Some(limit),
        );
        let mut rows: Vec<(String, String)> = Vec::new();
        let mut n: usize = 0;
        while n < picks.len()
            invariant
                n <= picks@.len(),
                rows@.len() == n,
                ordering::is_page::<String>(
                    o@.synonyms.map_values(synonym_key(keyword)),
                    Some(after@),
                    Some(limit as nat),
                    picks@,
                ),
                forall|j: int|
                    0 <= j < n ==> (#[trigger] rows@[j]).0@ == o@.synonyms[picks@[j] as int].synonym
                        && rows@[j].1@ == o@.synonyms[picks@[j] as int].provenance,
            decreases picks@.len() - n,
        {
            let p: usize = picks[n];
            assert(o@.synonyms[p as int] == o.synonyms@[p as int]@);
            rows.push((o.synonyms[p].synonym.clone(), o.synonyms[p].provenance.clone()));
            n += 1;
        }
        Ok(rows)
    }

    /// Retains a relation of two images under its source key.
    pub fn retain_image_relation(
        &mut self,
        source_key: &str,
        kind: &str,
        from: &VariantKey,
        to: &VariantKey,
        position: i64,
        evidence: &str,
    ) -> (r: Result<i64, CatalogError>)
        ensures
            final(self).organization_only(*old(self)),
            final(self).organization.membership == old(self).organization.membership,
            match relation_outcome(
                old(self).tables@,
                old(self).organization@,
                source_key@,
                kind@,
                from@,
                to@,
                position,
                evidence@,
            ) {
                Ok((after, sequence)) => r == Ok::<i64, CatalogError>(sequence) && final(self).organization@ == after,
                Err(e) => r == Err::<i64, CatalogError>(e) && *final(self) == *old(self),
            },
    {
        retain_image_relation(
            &self.tables,
            &mut self.organization,
            source_key,
            kind,
            from,
            to,
            position,
            evidence,
        )
    }

    /// A page of the relations that lead from an image, in the order of their
    /// numbers.
    pub fn image_relations(&self, from: &VariantKey, after: i64, limit: usize) -> (r: Result<
        Vec<ImageRelation>,
        CatalogError,
    >)
        ensures
            match r {
                Err(e) => if after < 0 || limit == 0 || limit > PAGE_LIMIT {
                    e == CatalogError::PageBounds
                } else {
                    self.tables@.id_of(from@) is None && e == CatalogError::ImageNotFound
                },
                Ok(rows) => after >= 0 && 0 < limit <= PAGE_LIMIT && self.tables@.id_of(from@)
                    is Some && is_relation_page(
                    self.tables@,
                    self.organization@,
                    from@,
                    (after, 0),
                    limit as nat,
                    rows@,
                ),
            },
    {
        if after < 0 || limit == 0 || limit > PAGE_LIMIT {
            return Err(CatalogError::PageBounds);
        }
        let db = &self.tables;
        let o = &self.organization;
        let image: String = match id(db, from) {
            Err(e) => return Err(e),
            Ok(image) => image,
        };
        let key = |r: &RelationRow| -> (k: Option<(i64, i64)>)
            ensures ordering::key_of(k) == relation_key(db@, image@)(r@)
        {
            if same(r.from_image.as_str(), image.as_str()) && db.find_image_at(
                r.to_image.as_str(),
            ).is_some() {
                Some((r.sequence, 0))
            } else {
                None
            }
        };
        let cursor: Option<(i64, i64)> = Some((after, 0));
        let picks: Vec<usize> = page_rows(
            &o.relations,
            key,
            Ghost(relation_key(db@, image@)),
            &cursor,
            Some(limit),
        );
        let ghost keys = o@.relations.map_values(relation_key(db@, image@));
        let mut rows: Vec<ImageRelation> = Vec::new();
        let mut n: usize = 0;
        while n < picks.len()
            invariant
                n <= picks@.len(),
                rows@.len() == n,
                keys == o@.relations.map_values(relation_key(db@, image@)),
                ordering::is_page::<(i64, i64)>(keys, Some((after, 0i64)), Some(limit as nat), picks@),
                forall|j: int|
                    0 <= j < n ==> (#[trigger] rows@[j])@ == relation_view(
                        db@,
                        from@,
                        o@.relations[picks@[j] as int],
                    ),
            decreases picks@.len() - n,
        {
            let p: usize = picks[n];
            assert(ordering::follows::<(i64, i64)>(Some((after, 0i64)), keys[p as int]));
            assert(o@.relations[p as int] == o.relations@[p as int]@);
            let row = &o.relations[p];
            if let Some(k) = db.find_image_at(row.to_image.as_str()) {
                assert(db@.images[k as int] == db.images@[k as int]@);
                rows.push(
                    ImageRelation {
                        sequence: row.sequence,
                        kind: row.kind.clone(),
                        from: from.copy(),
                        to: VariantKey {
                            asset_id: db.images[k].asset_id.clone(),
                            variant_id: db.images[k].variant_id.clone(),
                        },
                        position: row.position,
                        provenance: row.provenance.clone(),
                    },
                );
            }
            n += 1;
        }
        assert(keys == self.organization@.relations.map_values(
            relation_key(self.tables@, self.tables@.id_of(from@)->0),
        ));
        Ok(rows)
    }

    /// Whether the index of collection members at position zero covers every
    /// membership. Until it does, an empty index does not mean an empty collection.
    pub fn collection_order_index_ready(&self) -> (r: Result<bool, OrderIndexError>)
        ensures
            match r {
                Ok(complete) => self.organization.membership.backfill matches Some(b) && complete
                    == b.complete,
                Err(e) => self.organization.membership.backfill is None && e
                    == OrderIndexError::NotInstalled,
            },
    {
        self.organization.membership.ready()
    }
}

/// The most items of a batch.
pub const BATCH_LIMIT: usize = 1000;

/// An image that is to be organized, with the revision that is expected of it.
pub struct BatchItem {
    pub asset_id: String,
    pub expected_revision: i64,
}

/// What a `BatchItem` stands for.
#[verifier::ext_equal]
pub struct BatchItemModel {
    pub asset_id: Seq<char>,
    pub expected_revision: i64,
}

impl View for BatchItem {
    type V = BatchItemModel;

    open spec fn view(&self) -> BatchItemModel {
        BatchItemModel { asset_id: self.asset_id@, expected_revision: self.expected_revision }
    }
}

/// The images of the first `n` items of a batch.
pub open spec fn batch_items(m: TablesModel, items: Seq<(VariantKey, i64)>, n: nat) -> Result<
    Seq<BatchItemModel>,
    CatalogError,
>
    decreases n,
{
    if n == 0 {
        Ok(Seq::empty())
    } else {
        match batch_items(m, items, (n - 1) as nat) {
            Err(e) => Err(e),
            Ok(before) => match m.id_of(items[n - 1].0@) {
                None => Err(CatalogError::ImageNotFound),
                Some(asset_id) => Ok(
                    before.push(BatchItemModel { asset_id, expected_revision: items[n - 1].1 }),
                ),
            },
        }
    }
}

proof fn lemma_batch_error(m: TablesModel, items: Seq<(VariantKey, i64)>, n: nat)
    requires
        n <= items.len(),
        batch_items(m, items, n) is Err,
    ensures
        batch_items(m, items, items.len()) == batch_items(m, items, n),
    decreases items.len() - n,
{
    if n < items.len() {
        lemma_batch_error(m, items, n + 1);
    }
}

impl Catalog {
    /// The item that organizing the image of a variant comes down to.
    pub fn organize_image(&self, key: &VariantKey, expected: i64) -> (r: Result<
        BatchItem,
        CatalogError,
    >)
        ensures
            match self.tables@.id_of(key@) {
                None => r == Err::<BatchItem, CatalogError>(CatalogError::ImageNotFound),
                Some(asset_id) => r matches Ok(item) && item@ == (BatchItemModel {
                    asset_id,
                    expected_revision: expected,
                }),
            },
    {
        match id(&self.tables, key) {
            Err(e) => Err(e),
            Ok(asset_id) => Ok(BatchItem { asset_id, expected_revision: expected }),
        }
    }

    /// The items that organizing the images of variants comes down to: all of
    /// them, in their order, or none.
    pub fn append_image_organization_batch(&self, items: &Vec<(VariantKey, i64)>) -> (r: Result<
        Vec<BatchItem>,
        CatalogError,
    >)
        ensures
            if items@.len() == 0 || items@.len() > BATCH_LIMIT {
                r == Err::<Vec<BatchItem>, CatalogError>(CatalogError::BatchLimit)
            } else {
                match batch_items(self.tables@, items@, items@.len()) {
                    Err(e) => r == Err::<Vec<BatchItem>, CatalogError>(e),
                    Ok(found) => r matches Ok(batch) && support::models(batch@) == found,
                }
            },
    {
        if items.len() == 0 || items.len() > BATCH_LIMIT {
            return Err(CatalogError::BatchLimit);
        }
        let ghost m = self.tables@;
        let mut batch: Vec<BatchItem> = Vec::new();
        let mut n: usize = 0;
        assert(support::models(batch@) =~= Seq::<BatchItemModel>::empty());
        while n < items.len()
            invariant
                n <= items@.len(),
                0 < items@.len() <= BATCH_LIMIT,
                m == self.tables@,
                batch_items(m, items@, n as nat) == Ok::<Seq<BatchItemModel>, CatalogError>(
                    support::models(batch@),
                ),
            decreases items@.len() - n,
        {
            let ghost before = support::models(batch@);
            match self.organize_image(&items[n].0, items[n].1) {
                Err(e) => {
                    proof {
                        lemma_batch_error(m, items@, (n + 1) as nat);
                    }
                    return Err(e);
                },
                Ok(item) => {
                    batch.push(item);
                    assert(support::models(batch@) =~= before.push(item@));
                },
            }
            n += 1;
        }
        Ok(batch)
    }
}

} // verus!
