//! The composition of the hierarchy and the permission catalog: access checks
//! on blocks that cascade up the ancestor chain, and the save pipeline that
//! keeps the link graph a function of block text.
use vstd::prelude::*;

use crate::access::AccessCatalog;
use crate::access::PermissionResult;
use crate::content::ancestors_of;
use crate::content::content_tags;
use crate::content::has_block;
use crate::content::ids_unique;
use crate::content::index_of;
use crate::content::lemma_chain_members_exist;
use crate::content::same_block;
use crate::content::relinked;
use crate::content::resolve_all;
use crate::content::resolve_in;
use crate::content::is_descendant_of;
use crate::content::upserted;
use crate::content::ContentBlock;
use crate::content::ContentLink;
use crate::content::ContentStore;
use crate::content::has_link;
use crate::content::keeps;
use crate::content::lemma_orphan_cleanup;
use crate::content::lemma_relink_idempotent;
use crate::content::BlockContent;
use crate::content::LinkChanges;
use crate::nutty_id::DissociatedNuttyId;
use crate::nutty_id::NuttyId;
use crate::nutty_tag::NuttyTag;

verus! {

/// Errors of the content service.
#[derive(Debug, Clone, PartialEq, Eq)]
pub enum ContentServiceError {
    /// No block has the given short identifier.
    ContentBlockNotFound,
}

/// The permission tokens of one family (read or write): granted on every
/// block, on one block, or on the blocks one owns.
#[derive(Debug, Clone)]
pub struct AccessTokens {
    pub all: String,
    pub resource: String,
    pub own: String,
}

impl AccessTokens {
    /// `content_blocks:read:all`, `content_blocks:read:resource`, `content_blocks:read:own`.
    pub fn read() -> (r: Self)
        ensures
            r.all@ == "content_blocks:read:all"@,
            r.resource@ == "content_blocks:read:resource"@,
            r.own@ == "content_blocks:read:own"@,
    {
        AccessTokens {
            all: "content_blocks:read:all".to_owned(),
            resource: "content_blocks:read:resource".to_owned(),
            own: "content_blocks:read:own".to_owned(),
        }
    }

    /// `content_blocks:write:all`, `content_blocks:write`, `content_blocks:write:own`.
    pub fn write() -> (r: Self)
        ensures
            r.all@ == "content_blocks:write:all"@,
            r.resource@ == "content_blocks:write"@,
            r.own@ == "content_blocks:write:own"@,
    {
        AccessTokens {
            all: "content_blocks:write:all".to_owned(),
            resource: "content_blocks:write".to_owned(),
            own: "content_blocks:write:own".to_owned(),
        }
    }
}

/// The resource type of blocks, `content_block`.
pub open spec fn block_type() -> Seq<char> {
    seq!['c', 'o', 'n', 't', 'e', 'n', 't', '_', 'b', 'l', 'o', 'c', 'k']
}

fn block_type_text() -> (r: String)
    ensures
        r@ == block_type(),
{
    let r = "content_block".to_owned();
    proof {
        reveal_strlit("content_block");
    }
    assert(r@ =~= block_type());
    r
}

/// `nav` owns the block `block`.
pub open spec fn owns(blocks: Seq<ContentBlock>, nav: NuttyId, block: NuttyId) -> bool {
    has_block(blocks, block) && blocks[index_of(blocks, block)].owner_id == Some(nav)
}

/// The decision on access by `nav` to the block `block` for one token family:
/// a global grant of `all`; a role carrying `res` on the block; a global grant
/// of `own` on a block `nav` owns; else `res` checked on each ancestor, nearest
/// first.
pub open spec fn block_access(
    c: AccessCatalog,
    blocks: Seq<ContentBlock>,
    nav: NuttyId,
    block: NuttyId,
    all: Seq<char>,
    res: Seq<char>,
    own: Seq<char>,
) -> PermissionResult {
    if c.global_grant(nav, all) {
        PermissionResult::GrantedGlobal
    } else if c.resource_grant(nav, res, block_type(), block) {
        PermissionResult::GrantedResource
    } else if c.global_grant(nav, own) && owns(blocks, nav, block) {
        PermissionResult::GrantedOwnership
    } else {
        c.cascade(nav, res, block_type(), ancestors_of(blocks, block))
    }
}

/// Ownership grants only with both facts: with no global or resource grant
/// anywhere up the chain, access is granted through ownership exactly when
/// `nav` both holds the `own` token globally and owns the block, and is
/// denied otherwise.
pub proof fn lemma_ownership_needs_both(
    c: AccessCatalog,
    blocks: Seq<ContentBlock>,
    nav: NuttyId,
    block: NuttyId,
    all: Seq<char>,
    res: Seq<char>,
    own: Seq<char>,
)
    requires
        !c.global_grant(nav, all),
        !c.resource_grant(nav, res, block_type(), block),
        c.cascade(nav, res, block_type(), ancestors_of(blocks, block)) == PermissionResult::Denied,
    ensures
        block_access(c, blocks, nav, block, all, res, own) == PermissionResult::GrantedOwnership
            <==> c.global_grant(nav, own) && owns(blocks, nav, block),
        !(c.global_grant(nav, own) && owns(blocks, nav, block)) ==> block_access(
            c,
            blocks,
            nav,
            block,
            all,
            res,
            own,
        ) == PermissionResult::Denied,
{
}

/// A global grant of the `all` token answers first, whatever roles `nav` holds
/// on the block or its ancestors.
pub proof fn lemma_block_global_first(
    c: AccessCatalog,
    blocks: Seq<ContentBlock>,
    nav: NuttyId,
    block: NuttyId,
    all: Seq<char>,
    res: Seq<char>,
    own: Seq<char>,
)
    requires
        c.global_grant(nav, all),
    ensures
        block_access(c, blocks, nav, block, all, res, own) == PermissionResult::GrantedGlobal,
{
}

/// Errors of context construction.
#[derive(Debug, Clone, PartialEq, Eq)]
pub enum ContentContextBuilderError {
    /// No block identifier was given.
    MissingBlockId,
}

/// A block with its surroundings: its parent, children, the blocks it
/// references and those referencing it, and copies of the blocks around it.
#[derive(Debug)]
pub struct ContentContext {
    block_id: NuttyId,
    parent_id: Option<NuttyId>,
    children_ids: Vec<NuttyId>,
    reference_ids: Vec<NuttyId>,
    backlink_ids: Vec<NuttyId>,
    block_cache: Vec<ContentBlock>,
}

/// Some block of `cache` has identifier `id`.
pub open spec fn cached(cache: Seq<ContentBlock>, id: NuttyId) -> bool {
    exists|k: int| 0 <= k < cache.len() && (#[trigger] cache[k]).nutty_id == id
}

/// The identifiers of `cache` are unique.
pub open spec fn cache_unique(cache: Seq<ContentBlock>) -> bool {
    forall|a: int, b: int|
        0 <= a < b < cache.len() ==> (#[trigger] cache[a]).nutty_id != (#[trigger] cache[b]).nutty_id
}

impl ContentContext {
    pub closed spec fn spec_block_id(&self) -> NuttyId {
        self.block_id
    }

    pub closed spec fn spec_parent_id(&self) -> Option<NuttyId> {
        self.parent_id
    }

    pub closed spec fn spec_children_ids(&self) -> Seq<NuttyId> {
        self.children_ids@
    }

    pub closed spec fn spec_reference_ids(&self) -> Seq<NuttyId> {
        self.reference_ids@
    }

    pub closed spec fn spec_backlink_ids(&self) -> Seq<NuttyId> {
        self.backlink_ids@
    }

    pub closed spec fn spec_block_cache(&self) -> Seq<ContentBlock> {
        self.block_cache@
    }

    /// A builder with nothing set.
    pub fn builder() -> (r: ContentContextBuilder)
        ensures
            r.block_id is None,
            r.parent_id is None,
            r.children_ids@.len() == 0,
            r.reference_ids@.len() == 0,
            r.backlink_ids@.len() == 0,
            r.block_cache@.len() == 0,
    {
        ContentContextBuilder {
            block_id: None,
            parent_id: None,
            children_ids: Vec::new(),
            reference_ids: Vec::new(),
            backlink_ids: Vec::new(),
            block_cache: Vec::new(),
        }
    }

    /// The block the context is about.
    pub fn block_id(&self) -> (r: &NuttyId)
        ensures
            *r == self.spec_block_id(),
    {
        &self.block_id
    }

    /// Its parent, if any.
    pub fn parent_id(&self) -> (r: Option<&NuttyId>)
        ensures
            r matches Some(p) ==> self.spec_parent_id() == Some(*p),
            r is None ==> self.spec_parent_id() is None,
    {
        match &self.parent_id {
            Some(p) => Some(p),
            None => None,
        }
    }

    /// Its children.
    pub fn children_ids(&self) -> (r: &[NuttyId])
        ensures
            r@ == self.spec_children_ids(),
    {
        self.children_ids.as_slice()
    }

    /// The blocks it references.
    pub fn reference_ids(&self) -> (r: &[NuttyId])
        ensures
            r@ == self.spec_reference_ids(),
    {
        self.reference_ids.as_slice()
    }

    /// The blocks that reference it.
    pub fn backlink_ids(&self) -> (r: &[NuttyId])
        ensures
            r@ == self.spec_backlink_ids(),
    {
        self.backlink_ids.as_slice()
    }

    /// Copies of the blocks around it.
    pub fn block_cache(&self) -> (r: &[ContentBlock])
        ensures
            r@ == self.spec_block_cache(),
    {
        self.block_cache.as_slice()
    }
}

/// Collects the parts of a context; the block identifier is required.
#[derive(Debug)]
pub struct ContentContextBuilder {
    pub block_id: Option<NuttyId>,
    pub parent_id: Option<NuttyId>,
    pub children_ids: Vec<NuttyId>,
    pub reference_ids: Vec<NuttyId>,
    pub backlink_ids: Vec<NuttyId>,
    pub block_cache: Vec<ContentBlock>,
}

impl ContentContextBuilder {
    pub fn block_id(self, block_id: NuttyId) -> (r: Self)
        ensures
            r == (ContentContextBuilder { block_id: Some(block_id), ..self }),
    {
        ContentContextBuilder { block_id: Some(block_id), ..self }
    }

    pub fn parent_id(self, parent_id: Option<NuttyId>) -> (r: Self)
        ensures
            r == (ContentContextBuilder { parent_id, ..self }),
    {
        ContentContextBuilder { parent_id, ..self }
    }

    pub fn children_ids(self, children_ids: Vec<NuttyId>) -> (r: Self)
        ensures
            r == (ContentContextBuilder { children_ids, ..self }),
    {
        ContentContextBuilder { children_ids, ..self }
    }

    pub fn add_child_id(self, child_id: NuttyId) -> (r: Self)
        ensures
            r.children_ids@ == self.children_ids@.push(child_id),
            r.block_id == self.block_id && r.parent_id == self.parent_id && r.reference_ids
                == self.reference_ids && r.backlink_ids == self.backlink_ids && r.block_cache
                == self.block_cache,
    {
        let mut b = self;
        b.children_ids.push(child_id);
        b
    }

    pub fn reference_ids(self, reference_ids: Vec<NuttyId>) -> (r: Self)
        ensures
            r == (ContentContextBuilder { reference_ids, ..self }),
    {
        ContentContextBuilder { reference_ids, ..self }
    }

    pub fn add_reference_id(self, reference_id: NuttyId) -> (r: Self)
        ensures
            r.reference_ids@ == self.reference_ids@.push(reference_id),
            r.block_id == self.block_id && r.parent_id == self.parent_id && r.children_ids
                == self.children_ids && r.backlink_ids == self.backlink_ids && r.block_cache
                == self.block_cache,
    {
        let mut b = self;
        b.reference_ids.push(reference_id);
        b
    }

    pub fn backlink_ids(self, backlink_ids: Vec<NuttyId>) -> (r: Self)
        ensures
            r == (ContentContextBuilder { backlink_ids, ..self }),
    {
        ContentContextBuilder { backlink_ids, ..self }
    }

    pub fn add_backlink_id(self, backlink_id: NuttyId) -> (r: Self)
        ensures
            r.backlink_ids@ == self.backlink_ids@.push(backlink_id),
            r.block_id == self.block_id && r.parent_id == self.parent_id && r.children_ids
                == self.children_ids && r.reference_ids == self.reference_ids && r.block_cache
                == self.block_cache,
    {
        let mut b = self;
        b.backlink_ids.push(backlink_id);
        b
    }

    pub fn block_cache(self, block_cache: Vec<ContentBlock>) -> (r: Self)
        ensures
            r == (ContentContextBuilder { block_cache, ..self }),
    {
        ContentContextBuilder { block_cache, ..self }
    }

    /// Caches `block`, replacing a cached block with the same identifier.
    pub fn add_block_to_cache(self, block: ContentBlock) -> (r: Self)
        ensures
            r.block_id == self.block_id && r.parent_id == self.parent_id && r.children_ids
                == self.children_ids && r.reference_ids == self.reference_ids && r.backlink_ids
                == self.backlink_ids,
            cached(self.block_cache@, block.nutty_id) ==> exists|i: int|
                0 <= i < self.block_cache@.len() && (#[trigger] self.block_cache@[i]).nutty_id
                    == block.nutty_id && r.block_cache@ == self.block_cache@.update(i, block),
            !cached(self.block_cache@, block.nutty_id) ==> r.block_cache@ == self.block_cache@.push(
                block,
            ),
            cache_unique(self.block_cache@) ==> cache_unique(r.block_cache@),
            forall|x: NuttyId| #[trigger]
                cached(r.block_cache@, x) <==> cached(self.block_cache@, x) || x == block.nutty_id,
            forall|k: int|
                0 <= k < r.block_cache@.len() ==> #[trigger] r.block_cache@[k] == block
                    || self.block_cache@.contains(r.block_cache@[k]),
    {
        let mut b = self;
        let mut i: usize = 0;
        while i < b.block_cache.len()
            invariant
                b == self,
                i <= b.block_cache@.len(),
                forall|k: int| 0 <= k < i ==> (#[trigger] b.block_cache@[k]).nutty_id != block.nutty_id,
            decreases b.block_cache@.len() - i,
        {
            if b.block_cache[i].nutty_id == block.nutty_id {
                let ghost before = b.block_cache@;
                b.block_cache.set(i, block);
                proof {
                    assert(before[i as int].nutty_id == block.nutty_id);
                    assert forall|k: int| 0 <= k < b.block_cache@.len() implies #[trigger] b.block_cache@[k]
                        == block || before.contains(b.block_cache@[k]) by {
                        if k != i as int {
                            assert(b.block_cache@[k] == before[k]);
                        }
                    }
                    assert forall|x: NuttyId| #[trigger]
                        cached(b.block_cache@, x) <==> cached(before, x) || x == block.nutty_id by {
                        if cached(before, x) {
                            let k = choose|k: int| 0 <= k < before.len() && (#[trigger] before[k]).nutty_id == x;
                            if k != i as int {
                                assert(b.block_cache@[k] == before[k]);
                            }
                        }
                        if cached(b.block_cache@, x) {
                            let k = choose|k: int|
                                0 <= k < b.block_cache@.len() && (#[trigger] b.block_cache@[k]).nutty_id == x;
                            if k != i as int {
                                assert(b.block_cache@[k] == before[k]);
                            }
                        }
                        if x == block.nutty_id {
                            assert(b.block_cache@[i as int].nutty_id == x);
                        }
                    }
                    if cache_unique(before) {
                        assert forall|a: int, c: int|
                            0 <= a < c < b.block_cache@.len() implies (
                            #[trigger] b.block_cache@[a]).nutty_id != (
                            #[trigger] b.block_cache@[c]).nutty_id by {
                            assert(before[a].nutty_id != before[c].nutty_id);
                        }
                    }
                }
                return b;
            }
            i = i + 1;
        }
        let ghost before = b.block_cache@;
        b.block_cache.push(block);
        proof {
            assert forall|k: int| 0 <= k < b.block_cache@.len() implies #[trigger] b.block_cache@[k]
                == block || before.contains(b.block_cache@[k]) by {
                if k < before.len() {
                    assert(b.block_cache@[k] == before[k]);
                }
            }
            assert forall|x: NuttyId| #[trigger]
                cached(b.block_cache@, x) <==> cached(before, x) || x == block.nutty_id by {
                if cached(before, x) {
                    let k = choose|k: int| 0 <= k < before.len() && (#[trigger] before[k]).nutty_id == x;
                    assert(b.block_cache@[k] == before[k]);
                }
                if cached(b.block_cache@, x) {
                    let k = choose|k: int|
                        0 <= k < b.block_cache@.len() && (#[trigger] b.block_cache@[k]).nutty_id == x;
                    if k < before.len() {
                        assert(b.block_cache@[k] == before[k]);
                    }
                }
                if x == block.nutty_id {
                    assert(b.block_cache@[before.len() as int].nutty_id == x);
                }
            }
            if cache_unique(before) {
                assert forall|a: int, c: int|
                    0 <= a < c < b.block_cache@.len() implies (#[trigger] b.block_cache@[a]).nutty_id
                    != (#[trigger] b.block_cache@[c]).nutty_id by {
                    if c < before.len() {
                        assert(before[a].nutty_id != before[c].nutty_id);
                    } else {
                        assert(b.block_cache@[a] == before[a]);
                    }
                }
            }
        }
        b
    }

    /// The context, or `MissingBlockId` when no block identifier was set.
    pub fn try_build(self) -> (r: Result<ContentContext, ContentContextBuilderError>)
        ensures
            self.block_id is None ==> r == Err::<ContentContext, _>(
                ContentContextBuilderError::MissingBlockId,
            ),
            self.block_id matches Some(id) ==> (r matches Ok(c) && c.spec_block_id() == id
                && c.spec_parent_id() == self.parent_id && c.spec_children_ids()
                == self.children_ids@ && c.spec_reference_ids() == self.reference_ids@
                && c.spec_backlink_ids() == self.backlink_ids@ && c.spec_block_cache()
                == self.block_cache@),
    {
        match self.block_id {
            Some(block_id) => Ok(
                ContentContext {
                    block_id,
                    parent_id: self.parent_id,
                    children_ids: self.children_ids,
                    reference_ids: self.reference_ids,
                    backlink_ids: self.backlink_ids,
                    block_cache: self.block_cache,
                },
            ),
            None => Err(ContentContextBuilderError::MissingBlockId),
        }
    }
}

/// The short identifiers that the text of `content` tags, in order.
pub open spec fn tag_ids(content: BlockContent) -> Seq<Seq<char>> {
    content_tags(content).map_values(|p: (Seq<char>, Option<Seq<char>>)| p.0)
}

/// The identifiers of `blocks`, in store order.
pub open spec fn block_ids(blocks: Seq<ContentBlock>) -> Seq<NuttyId> {
    blocks.map_values(|b: ContentBlock| b.nutty_id)
}

/// Resolution reads only the identifiers of the blocks.
proof fn lemma_resolve_in_ids(b1: Seq<ContentBlock>, b2: Seq<ContentBlock>, nid: Seq<char>)
    requires
        block_ids(b1) == block_ids(b2),
    ensures
        resolve_in(b1, nid) == resolve_in(b2, nid),
    decreases b1.len(),
{
    assert(b1.len() == block_ids(b1).len() && b2.len() == block_ids(b2).len());
    if b1.len() > 0 {
        assert(block_ids(b1)[0] == b1[0].nutty_id && block_ids(b2)[0] == b2[0].nutty_id);
        assert(block_ids(b1.skip(1)) =~= block_ids(b1).skip(1));
        assert(block_ids(b2.skip(1)) =~= block_ids(b2).skip(1));
        lemma_resolve_in_ids(b1.skip(1), b2.skip(1), nid);
    }
}

proof fn lemma_resolve_all_ids(b1: Seq<ContentBlock>, b2: Seq<ContentBlock>, nids: Seq<Seq<char>>)
    requires
        block_ids(b1) == block_ids(b2),
    ensures
        resolve_all(b1, nids) == resolve_all(b2, nids),
    decreases nids.len(),
{
    if nids.len() > 0 {
        lemma_resolve_all_ids(b1, b2, nids.drop_last());
        lemma_resolve_in_ids(b1, b2, nids.last());
    }
}

/// Saving a block that is already stored keeps the identifiers of the store.
proof fn lemma_resave_keeps_ids(old: Seq<ContentBlock>, block: ContentBlock, now: i64, new: Seq<ContentBlock>)
    requires
        upserted(old, block, now, new),
        has_block(old, block.nutty_id),
    ensures
        block_ids(new) == block_ids(old),
{
    let i = index_of(old, block.nutty_id);
    assert(old[i].nutty_id == block.nutty_id);
    assert(block_ids(new) =~= block_ids(old));
}

/// Saving the same content twice: the second save finds every tagged block
/// linked and nothing to drop, so the links stay exactly as they were (same
/// link identifiers, in the same order) and nothing is inserted or removed.
pub proof fn lemma_save_twice_keeps_links(
    b0: Seq<ContentBlock>,
    l0: Seq<ContentLink>,
    first: ContentBlock,
    now1: i64,
    b1: Seq<ContentBlock>,
    l1: Seq<ContentLink>,
    inserted1: Seq<NuttyId>,
    removed1: Seq<NuttyId>,
    second: ContentBlock,
    now2: i64,
    b2: Seq<ContentBlock>,
    l2: Seq<ContentLink>,
    inserted2: Seq<NuttyId>,
    removed2: Seq<NuttyId>,
)
    requires
        second.nutty_id == first.nutty_id,
        second.content == first.content,
        upserted(b0, first, now1, b1),
        relinked(l0, first.nutty_id, resolve_all(b1, tag_ids(first.content)), l1, inserted1, removed1),
        upserted(b1, second, now2, b2),
        relinked(l1, second.nutty_id, resolve_all(b2, tag_ids(second.content)), l2, inserted2, removed2),
    ensures
        l2 == l1,
        inserted2.len() == 0,
        removed2.len() == 0,
{
    if has_block(b0, first.nutty_id) {
        let i = index_of(b0, first.nutty_id);
        assert(b1[i].nutty_id == first.nutty_id);
    } else {
        assert(b1[b0.len() as int].nutty_id == first.nutty_id);
    }
    assert(has_block(b1, first.nutty_id));
    lemma_resave_keeps_ids(b1, second, now2, b2);
    lemma_resolve_all_ids(b2, b1, tag_ids(first.content));
    lemma_relink_idempotent(
        l0,
        first.nutty_id,
        resolve_all(b1, tag_ids(first.content)),
        l1,
        inserted1,
        removed1,
        l2,
        inserted2,
        removed2,
    );
}

/// Saving a block deletes exactly its links to blocks its text no longer
/// tags, and no other link; with no such link, nothing is deleted.
pub proof fn lemma_save_drops_only_dropped_links(
    b0: Seq<ContentBlock>,
    l0: Seq<ContentLink>,
    block: ContentBlock,
    now: i64,
    b1: Seq<ContentBlock>,
    l1: Seq<ContentLink>,
    inserted: Seq<NuttyId>,
    removed: Seq<NuttyId>,
)
    requires
        upserted(b0, block, now, b1),
        relinked(l0, block.nutty_id, resolve_all(b1, tag_ids(block.content)), l1, inserted, removed),
    ensures
        forall|l: ContentLink| #[trigger]
            l0.contains(l) ==> (l1.contains(l) <==> keeps(
                block.nutty_id,
                resolve_all(b1, tag_ids(block.content)),
                l,
            )),
        forall|t: NuttyId| #[trigger]
            removed.contains(t) <==> has_link(l0, block.nutty_id, t) && !resolve_all(
                b1,
                tag_ids(block.content),
            ).contains(t),
        (forall|t: NuttyId|
            has_link(l0, block.nutty_id, t) ==> resolve_all(b1, tag_ids(block.content)).contains(t))
            ==> removed.len() == 0,
{
    lemma_orphan_cleanup(
        l0,
        block.nutty_id,
        resolve_all(b1, tag_ids(block.content)),
        l1,
        inserted,
        removed,
    );
}

/// The blocks below `b`, in store order.
pub open spec fn descendant_blocks(blocks: Seq<ContentBlock>, b: NuttyId) -> Seq<ContentBlock> {
    blocks.filter(|x: ContentBlock| is_descendant_of(blocks, x.nutty_id, b))
}

/// A cache entry of the context of `b`: a copy of the stored block with its
/// identifier, which is `b`, an ancestor of `b` or a block below `b`.
pub open spec fn cache_entry_ok(blocks: Seq<ContentBlock>, b: NuttyId, x: ContentBlock) -> bool {
    &&& has_block(blocks, x.nutty_id)
    &&& same_block(x, blocks[index_of(blocks, x.nutty_id)])
    &&& (x.nutty_id == b || ancestors_of(blocks, b).contains(x.nutty_id) || is_descendant_of(
        blocks,
        x.nutty_id,
        b,
    ))
}

proof fn lemma_cache_stays_ok(
    blocks: Seq<ContentBlock>,
    b: NuttyId,
    old: Seq<ContentBlock>,
    new: Seq<ContentBlock>,
    block: ContentBlock,
)
    requires
        forall|j: int| 0 <= j < old.len() ==> cache_entry_ok(blocks, b, #[trigger] old[j]),
        cache_entry_ok(blocks, b, block),
        forall|k: int| 0 <= k < new.len() ==> #[trigger] new[k] == block || old.contains(new[k]),
    ensures
        forall|j: int| 0 <= j < new.len() ==> cache_entry_ok(blocks, b, #[trigger] new[j]),
{
    assert forall|j: int| 0 <= j < new.len() implies cache_entry_ok(blocks, b, #[trigger] new[j]) by {
        if new[j] != block {
            let i = choose|i: int| 0 <= i < old.len() && old[i] == new[j];
            assert(cache_entry_ok(blocks, b, old[i]));
        }
    }
}

/// Each block below `b` is a stored block, at its own index.
proof fn lemma_descendant_entry_ok(blocks: Seq<ContentBlock>, b: NuttyId, k: int)
    requires
        ids_unique(blocks),
        0 <= k < descendant_blocks(blocks, b).len(),
    ensures
        has_block(blocks, descendant_blocks(blocks, b)[k].nutty_id),
        blocks[index_of(blocks, descendant_blocks(blocks, b)[k].nutty_id)] == descendant_blocks(
            blocks,
            b,
        )[k],
        is_descendant_of(blocks, descendant_blocks(blocks, b)[k].nutty_id, b),
{
    broadcast use vstd::seq_lib::group_filter_ensures;

    let pred = |x: ContentBlock| is_descendant_of(blocks, x.nutty_id, b);
    let f = blocks.filter(pred);
    let d = f[k];
    assert(pred(d));
    assert(f.contains(d));
    blocks.lemma_filter_contains_rev(pred, d);
    let i = choose|i: int| 0 <= i < blocks.len() && blocks[i] == d;
    assert(blocks[i].nutty_id == d.nutty_id);
    let j = index_of(blocks, d.nutty_id);
    assert(blocks[j].nutty_id == d.nutty_id);
    if j < i {
        assert(blocks[j].nutty_id != blocks[i].nutty_id);
    } else if j > i {
        assert(blocks[i].nutty_id != blocks[j].nutty_id);
    }
}

/// A short identifier resolves only to a block of the store.
proof fn lemma_resolved_exists(blocks: Seq<ContentBlock>, nid: Seq<char>)
    ensures
        resolve_in(blocks, nid) matches Some(id) ==> has_block(blocks, id),
    decreases blocks.len(),
{
    if blocks.len() > 0 {
        lemma_resolved_exists(blocks.skip(1), nid);
        if let Some(id) = resolve_in(blocks.skip(1), nid) {
            let k = choose|k: int| 0 <= k < blocks.skip(1).len() && #[trigger] blocks.skip(1)[k].nutty_id == id;
            assert(blocks[k + 1].nutty_id == id);
        }
        assert(blocks[0].nutty_id == blocks[0].nutty_id);
    }
}

/// The targets of `links`, in order.
fn target_ids(links: &Vec<ContentLink>) -> (r: Vec<NuttyId>)
    ensures
        r@ == links@.map_values(|l: ContentLink| l.target_id),
{
    let mut out: Vec<NuttyId> = Vec::new();
    let mut i: usize = 0;
    while i < links.len()
        invariant
            i <= links@.len(),
            out@ == links@.take(i as int).map_values(|l: ContentLink| l.target_id),
        decreases links@.len() - i,
    {
        out.push(links[i].target_id);
        assert(links@.take(i + 1).map_values(|l: ContentLink| l.target_id) =~= links@.take(
            i as int,
        ).map_values(|l: ContentLink| l.target_id).push(links@[i as int].target_id));
        i = i + 1;
    }
    assert(links@.take(links@.len() as int) =~= links@);
    out
}

/// The sources of `links`, in order.
fn source_ids(links: &Vec<ContentLink>) -> (r: Vec<NuttyId>)
    ensures
        r@ == links@.map_values(|l: ContentLink| l.source_id),
{
    let mut out: Vec<NuttyId> = Vec::new();
    let mut i: usize = 0;
    while i < links.len()
        invariant
            i <= links@.len(),
            out@ == links@.take(i as int).map_values(|l: ContentLink| l.source_id),
        decreases links@.len() - i,
    {
        out.push(links[i].source_id);
        assert(links@.take(i + 1).map_values(|l: ContentLink| l.source_id) =~= links@.take(
            i as int,
        ).map_values(|l: ContentLink| l.source_id).push(links@[i as int].source_id));
        i = i + 1;
    }
    assert(links@.take(links@.len() as int) =~= links@);
    out
}

/// The blocks and the catalog that guards them.
pub struct ContentService {
    pub repository: ContentStore,
    pub access: AccessCatalog,
}

impl ContentService {
    /// A service over `repository`, guarded by `access`.
    pub fn new(repository: ContentStore, access: AccessCatalog) -> (r: Self)
        ensures
            r.repository == repository,
            r.access == access,
    {
        ContentService { repository, access }
    }

    /// The context of the block named `nutty_id`: its parent, its children
    /// (taken from its descendants), the targets of its links and the sources
    /// of links to it, in store order, and copies of the block, its ancestors
    /// and its descendants.
    pub fn get_content_block_context(&self, nutty_id: &DissociatedNuttyId) -> (r: Result<
        ContentContext,
        ContentServiceError,
    >)
        requires
            self.repository.wf(),
        ensures
            resolve_in(self.repository.blocks(), nutty_id@) is None ==> r == Err::<
                ContentContext,
                ContentServiceError,
            >(ContentServiceError::ContentBlockNotFound),
            resolve_in(self.repository.blocks(), nutty_id@) matches Some(b) ==> (r matches Ok(c) && c.spec_block_id() == b && c.spec_parent_id()
                == self.repository.blocks()[index_of(self.repository.blocks(), b)].parent_id
                && c.spec_children_ids() == self.repository.blocks().filter(
                |x: ContentBlock| is_descendant_of(self.repository.blocks(), x.nutty_id, b),
            ).filter(|x: ContentBlock| x.parent_id == Some(b)).map_values(
                |x: ContentBlock| x.nutty_id,
            ) && c.spec_reference_ids() == self.repository.links().filter(
                |l: ContentLink| l.source_id == b,
            ).map_values(|l: ContentLink| l.target_id) && c.spec_backlink_ids()
                == self.repository.links().filter(|l: ContentLink| l.target_id == b).map_values(
                |l: ContentLink| l.source_id,
            ) && cache_unique(c.spec_block_cache()) && cached(c.spec_block_cache(), b) && (forall|
                x: NuttyId,
            | #[trigger] ancestors_of(self.repository.blocks(), b).contains(x) ==> cached(
                c.spec_block_cache(),
                x,
            )) && (forall|j: int|
                0 <= j < descendant_blocks(self.repository.blocks(), b).len() ==> cached(
                    c.spec_block_cache(),
                    (#[trigger] descendant_blocks(self.repository.blocks(), b)[j]).nutty_id,
                )) && (forall|k: int|
                0 <= k < c.spec_block_cache().len() ==> cache_entry_ok(
                    self.repository.blocks(),
                    b,
                    #[trigger] c.spec_block_cache()[k],
                ))),
    {
        let b = match self.repository.resolve_nutty_id(nutty_id) {
            Some(b) => b,
            None => {
                return Err(ContentServiceError::ContentBlockNotFound);
            },
        };
        proof {
            lemma_resolved_exists(self.repository.blocks(), nutty_id@);
        }
        let block = match self.repository.get(b) {
            Some(block) => block,
            None => {
                return Err(ContentServiceError::ContentBlockNotFound);
            },
        };
        let ghost blocks = self.repository.blocks();
        let ancestors = self.repository.ancestors(b);
        let descendants = self.repository.descendants(b);
        let children = self.repository.children(b);
        let outbound = self.repository.links_from(b);
        let inbound = self.repository.links_to(b);
        let mut children_ids: Vec<NuttyId> = Vec::new();
        let mut i: usize = 0;
        while i < children.len()
            invariant
                i <= children@.len(),
                children_ids@ == children@.take(i as int).map_values(|x: &ContentBlock| x.nutty_id),
            decreases children@.len() - i,
        {
            children_ids.push(children[i].nutty_id);
            assert(children@.take(i + 1).map_values(|x: &ContentBlock| x.nutty_id) =~= children@.take(
                i as int,
            ).map_values(|x: &ContentBlock| x.nutty_id).push(children@[i as int].nutty_id));
            i = i + 1;
        }
        proof {
            assert(children@.take(children@.len() as int) =~= children@);
            let mapped = children@.map_values(|x: &ContentBlock| *x);
            assert(children@.map_values(|x: &ContentBlock| x.nutty_id) =~= mapped.map_values(
                |x: ContentBlock| x.nutty_id,
            ));
        }
        let mut builder = ContentContext::builder().block_id(b).parent_id(block.parent_id).children_ids(
            children_ids,
        ).reference_ids(target_ids(&outbound)).backlink_ids(source_ids(&inbound));
        let first = block.clone();
        proof {
            assert(has_block(blocks, b));
            assert(cache_entry_ok(blocks, b, first));
        }
        builder = builder.add_block_to_cache(first);
        proof {
            lemma_cache_stays_ok(blocks, b, Seq::empty(), builder.block_cache@, first);
        }
        let mut k: usize = 0;
        while k < ancestors.len()
            invariant
                k <= ancestors@.len(),
                ancestors@.len() == ancestors_of(blocks, b).len(),
                forall|j: int|
                    0 <= j < ancestors@.len() ==> (#[trigger] ancestors@[j]).nutty_id == ancestors_of(
                        blocks,
                        b,
                    )[j],
                builder.block_id == Some(b),
                cache_unique(builder.block_cache@),
                cached(builder.block_cache@, b),
                forall|j: int|
                    0 <= j < k ==> cached(builder.block_cache@, #[trigger] ancestors_of(blocks, b)[j]),
                builder.parent_id == block.parent_id,
                builder.children_ids@ == children_ids@,
                builder.reference_ids@ == outbound@.map_values(|l: ContentLink| l.target_id),
                builder.backlink_ids@ == inbound@.map_values(|l: ContentLink| l.source_id),
                blocks == self.repository.blocks(),
                forall|j: int|
                    0 <= j < ancestors@.len() ==> *(#[trigger] ancestors@[j]) == blocks[index_of(
                        blocks,
                        ancestors_of(blocks, b)[j],
                    )],
                forall|j: int| 0 <= j < builder.block_cache@.len() ==> cache_entry_ok(blocks, b, #[trigger] builder.block_cache@[j]),
            decreases ancestors@.len() - k,
        {
            let next = ancestors[k].clone();
            proof {
                let x = ancestors_of(blocks, b)[k as int];
                assert(ancestors@[k as int].nutty_id == x);
                lemma_chain_members_exist(blocks, b, blocks.len(), k as int);
                assert(ancestors_of(blocks, b).contains(x));
                assert(cache_entry_ok(blocks, b, next));
            }
            let ghost before = builder.block_cache@;
            builder = builder.add_block_to_cache(next);
            proof {
                lemma_cache_stays_ok(blocks, b, before, builder.block_cache@, next);
            }
            assert(ancestors@[k as int].nutty_id == ancestors_of(blocks, b)[k as int]);
            k = k + 1;
        }
        let mut k: usize = 0;
        while k < descendants.len()
            invariant
                k <= descendants@.len(),
                builder.block_id == Some(b),
                cache_unique(builder.block_cache@),
                cached(builder.block_cache@, b),
                forall|j: int|
                    0 <= j < ancestors_of(blocks, b).len() ==> cached(
                        builder.block_cache@,
                        #[trigger] ancestors_of(blocks, b)[j],
                    ),
                builder.parent_id == block.parent_id,
                builder.children_ids@ == children_ids@,
                builder.reference_ids@ == outbound@.map_values(|l: ContentLink| l.target_id),
                builder.backlink_ids@ == inbound@.map_values(|l: ContentLink| l.source_id),
                forall|j: int| 0 <= j < k ==> cached(builder.block_cache@, (#[trigger] descendants@[j]).nutty_id),
                blocks == self.repository.blocks(),
                self.repository.wf(),
                descendants@.map_values(|d: &ContentBlock| *d) == descendant_blocks(blocks, b),
                forall|j: int| 0 <= j < builder.block_cache@.len() ==> cache_entry_ok(blocks, b, #[trigger] builder.block_cache@[j]),
            decreases descendants@.len() - k,
        {
            let next = descendants[k].clone();
            proof {
                let f = descendant_blocks(blocks, b);
                let d = *descendants@[k as int];
                assert(descendants@.map_values(|d: &ContentBlock| *d)[k as int] == d);
                lemma_descendant_entry_ok(blocks, b, k as int);
                assert(cache_entry_ok(blocks, b, next));
            }
            let ghost before = builder.block_cache@;
            builder = builder.add_block_to_cache(next);
            proof {
                lemma_cache_stays_ok(blocks, b, before, builder.block_cache@, next);
            }
            k = k + 1;
        }
        proof {
            let f = descendant_blocks(blocks, b);
            assert forall|j: int| 0 <= j < f.len() implies cached(builder.block_cache@, (#[trigger] f[j]).nutty_id) by {
                assert(descendants@.map_values(|d: &ContentBlock| *d)[j] == f[j]);
                assert(cached(builder.block_cache@, descendants@[j].nutty_id));
            }
        }
        proof {
            assert forall|x: NuttyId| #[trigger]
                ancestors_of(blocks, b).contains(x) implies cached(builder.block_cache@, x) by {
                let j = choose|j: int| 0 <= j < ancestors_of(blocks, b).len() && ancestors_of(blocks, b)[j] == x;
                assert(cached(builder.block_cache@, ancestors_of(blocks, b)[j]));
            }
        }
        match builder.try_build() {
            Ok(context) => Ok(context),
            Err(_) => Err(ContentServiceError::ContentBlockNotFound),
        }
    }

    /// Access by `nav` to the block named `block_id`, for the token family `tokens`.
    pub fn check_block_access(
        &self,
        nav: NuttyId,
        block_id: &DissociatedNuttyId,
        tokens: &AccessTokens,
    ) -> (r: Result<PermissionResult, ContentServiceError>)
        requires
            self.repository.wf(),
        ensures
            resolve_in(self.repository.blocks(), block_id@) is None ==> r == Err::<
                PermissionResult,
                ContentServiceError,
            >(ContentServiceError::ContentBlockNotFound),
            resolve_in(self.repository.blocks(), block_id@) matches Some(b) ==> r == Ok::<
                PermissionResult,
                ContentServiceError,
            >(
                block_access(
                    self.access,
                    self.repository.blocks(),
                    nav,
                    b,
                    tokens.all@,
                    tokens.resource@,
                    tokens.own@,
                ),
            ),
    {
        let block = match self.repository.resolve_nutty_id(block_id) {
            Some(b) => b,
            None => {
                return Err(ContentServiceError::ContentBlockNotFound);
            },
        };
        if self.access.has_global_permission(nav, &tokens.all) {
            return Ok(PermissionResult::GrantedGlobal);
        }
        let kind = block_type_text();
        if self.access.has_resource_permission(nav, &tokens.resource, &kind, block) {
            return Ok(PermissionResult::GrantedResource);
        }
        if self.access.has_global_permission(nav, &tokens.own) {
            let owned = match self.repository.get(block) {
                Some(b) => match b.owner_id {
                    Some(o) => o == nav,
                    None => false,
                },
                None => false,
            };
            if owned {
                return Ok(PermissionResult::GrantedOwnership);
            }
        }
        let ancestors = self.repository.ancestor_ids(block);
        Ok(self.access.check_ancestors(nav, &tokens.resource, &kind, &ancestors))
    }

    /// Whether `nav` may read the block named `block_id`, directly or through an ancestor.
    pub fn check_content_block_access(&self, nav: NuttyId, block_id: &DissociatedNuttyId) -> (r:
        Result<bool, ContentServiceError>)
        requires
            self.repository.wf(),
        ensures
            resolve_in(self.repository.blocks(), block_id@) is None ==> r == Err::<
                bool,
                ContentServiceError,
            >(ContentServiceError::ContentBlockNotFound),
            resolve_in(self.repository.blocks(), block_id@) matches Some(b) ==> r == Ok::<
                bool,
                ContentServiceError,
            >(
                block_access(
                    self.access,
                    self.repository.blocks(),
                    nav,
                    b,
                    "content_blocks:read:all"@,
                    "content_blocks:read:resource"@,
                    "content_blocks:read:own"@,
                ).grants(),
            ),
    {
        let tokens = AccessTokens::read();
        match self.check_block_access(nav, block_id, &tokens) {
            Ok(result) => Ok(result.is_granted()),
            Err(e) => Err(e),
        }
    }

    /// Whether `nav` may write the block named `block_id`, directly or through an ancestor.
    pub fn check_content_block_write_access(
        &self,
        nav: NuttyId,
        block_id: &DissociatedNuttyId,
    ) -> (r: Result<bool, ContentServiceError>)
        requires
            self.repository.wf(),
        ensures
            resolve_in(self.repository.blocks(), block_id@) is None ==> r == Err::<
                bool,
                ContentServiceError,
            >(ContentServiceError::ContentBlockNotFound),
            resolve_in(self.repository.blocks(), block_id@) matches Some(b) ==> r == Ok::<
                bool,
                ContentServiceError,
            >(
                block_access(
                    self.access,
                    self.repository.blocks(),
                    nav,
                    b,
                    "content_blocks:write:all"@,
                    "content_blocks:write"@,
                    "content_blocks:write:own"@,
                ).grants(),
            ),
    {
        let tokens = AccessTokens::write();
        match self.check_block_access(nav, block_id, &tokens) {
            Ok(result) => Ok(result.is_granted()),
            Err(e) => Err(e),
        }
    }

    /// Saves `block` at time `now` and makes its outgoing links exactly the
    /// blocks its text tags (tags naming no block are left out).
    pub fn save_content_block(&mut self, block: ContentBlock, now: i64) -> (r: (
        ContentBlock,
        LinkChanges,
    ))
        requires
            old(self).repository.wf(),
        ensures
            final(self).repository.wf(),
            final(self).access == old(self).access,
            upserted(old(self).repository.blocks(), block, now, final(self).repository.blocks()),
            has_block(final(self).repository.blocks(), block.nutty_id),
            same_block(
                r.0,
                final(self).repository.blocks()[index_of(
                    final(self).repository.blocks(),
                    block.nutty_id,
                )],
            ),
            relinked(
                old(self).repository.links(),
                block.nutty_id,
                resolve_all(final(self).repository.blocks(), tag_ids(block.content)),
                final(self).repository.links(),
                r.1.inserted@,
                r.1.removed@,
            ),
    {
        let tags = block.content.parse_target_tags();
        let ghost tag_views = tags@.map_values(|t: NuttyTag| (t.spec_nid(), t.spec_display()));
        let mut refs: Vec<DissociatedNuttyId> = Vec::new();
        let mut i: usize = 0;
        while i < tags.len()
            invariant
                i <= tags@.len(),
                tag_views == tags@.map_values(|t: NuttyTag| (t.spec_nid(), t.spec_display())),
                refs@.len() == i,
                forall|k: int| 0 <= k < i ==> (#[trigger] refs@[k])@ == tag_views[k].0,
            decreases tags@.len() - i,
        {
            refs.push(tags[i].nutty_id().clone());
            i = i + 1;
        }
        let ghost ref_views = refs@.map_values(|n: DissociatedNuttyId| n@);
        proof {
            assert(ref_views =~= tag_views.map_values(|p: (Seq<char>, Option<Seq<char>>)| p.0));
            assert(ref_views == tag_ids(block.content));
        }
        let id = block.nutty_id;
        let ghost b0 = self.repository.blocks();
        let changes = self.repository.save_with_references(block, now, &refs);
        proof {
            let b1 = self.repository.blocks();
            if has_block(b0, id) {
                assert(b1[index_of(b0, id)].nutty_id == id);
            } else {
                assert(b1[b0.len() as int].nutty_id == id);
            }
        }
        let saved = self.repository.get(id).unwrap().clone();
        (saved, changes)
    }
}

} // verus!
