//! The block hierarchy: a forest of content blocks keyed by identifier, each
//! with an optional parent, and the directed reference links between blocks.
use vstd::prelude::*;

use crate::fractional_index::FractionalIndex;
use crate::nutty_id::b58_padded;
use crate::nutty_id::spells;
use crate::nutty_id::DissociatedNuttyId;
use crate::nutty_id::NuttyId;
use crate::session::now_millis;
use crate::nutty_id::SHORT_ID_MODULUS;
use crate::nutty_tag::parsed_tags;
use crate::nutty_tag::pattern_matches;
use crate::nutty_tag::tag_pattern;
use crate::nutty_tag::NuttyTag;

verus! {

/// What a block holds.
#[derive(Debug)]
pub enum BlockContent {
    Page { title: String },
    Heading { markdown: String },
    Paragraph { markdown: String },
}

/// The tags written in the text of `content`, with their parts: none for a page.
pub open spec fn content_tags(content: BlockContent) -> Seq<(Seq<char>, Option<Seq<char>>)> {
    match content {
        BlockContent::Page { .. } => Seq::empty(),
        BlockContent::Heading { markdown } => parsed_tags(pattern_matches(tag_pattern(), markdown@)),
        BlockContent::Paragraph { markdown } => parsed_tags(
            pattern_matches(tag_pattern(), markdown@),
        ),
    }
}

impl Clone for BlockContent {
    fn clone(&self) -> (r: Self)
        ensures
            r == *self,
    {
        match self {
            BlockContent::Page { title } => BlockContent::Page { title: title.clone() },
            BlockContent::Heading { markdown } => BlockContent::Heading { markdown: markdown.clone() },
            BlockContent::Paragraph { markdown } => BlockContent::Paragraph {
                markdown: markdown.clone(),
            },
        }
    }
}

impl Clone for ContentBlock {
    fn clone(&self) -> (r: Self)
        ensures
            same_block(r, *self),
    {
        ContentBlock {
            nutty_id: self.nutty_id,
            owner_id: self.owner_id,
            parent_id: self.parent_id,
            f_index: self.f_index.clone(),
            content: self.content.clone(),
            created_at: self.created_at,
            updated_at: self.updated_at,
        }
    }
}

impl BlockContent {
    /// The tags in the text of the block, in order; a page title holds none.
    pub fn parse_target_tags(&self) -> (r: Vec<NuttyTag>)
        ensures
            r@.map_values(|t: NuttyTag| (t.spec_nid(), t.spec_display())) == content_tags(*self),
            self is Page ==> r@.len() == 0,
    {
        match self {
            BlockContent::Page { .. } => Vec::new(),
            BlockContent::Heading { markdown } => NuttyTag::parse_all(markdown.as_str()),
            BlockContent::Paragraph { markdown } => NuttyTag::parse_all(markdown.as_str()),
        }
    }
}

/// A block of content.
#[derive(Debug)]
pub struct ContentBlock {
    pub nutty_id: NuttyId,
    pub owner_id: Option<NuttyId>,
    pub parent_id: Option<NuttyId>,
    pub f_index: FractionalIndex,
    pub content: BlockContent,
    pub created_at: i64,
    pub updated_at: i64,
}

impl ContentBlock {
    /// A block with a fresh identifier, created and updated now, with no owner.
    pub fn now(parent_id: Option<NuttyId>, f_index: FractionalIndex, content: BlockContent) -> (r:
        Self)
        ensures
            r.owner_id is None,
            r.parent_id == parent_id,
            r.f_index == f_index,
            r.content == content,
            r.created_at == r.updated_at,
    {
        let nutty_id = NuttyId::now();
        let at = now_millis();
        ContentBlock {
            nutty_id,
            owner_id: None,
            parent_id,
            f_index,
            content,
            created_at: at,
            updated_at: at,
        }
    }

    /// A block with a fresh identifier, owned by `owner_id`.
    pub fn now_with_owner(
        parent_id: Option<NuttyId>,
        owner_id: NuttyId,
        f_index: FractionalIndex,
        content: BlockContent,
    ) -> (r: Self)
        ensures
            r.owner_id == Some(owner_id),
            r.parent_id == parent_id,
            r.f_index == f_index,
            r.content == content,
            r.created_at == r.updated_at,
    {
        let nutty_id = NuttyId::now();
        let at = now_millis();
        ContentBlock {
            nutty_id,
            owner_id: Some(owner_id),
            parent_id,
            f_index,
            content,
            created_at: at,
            updated_at: at,
        }
    }

    /// The identifier of the block.
    pub fn nutty_id(&self) -> (r: &NuttyId)
        ensures
            *r == self.nutty_id,
    {
        &self.nutty_id
    }

    /// The owner of the block, if any.
    pub fn owner_id(&self) -> (r: Option<&NuttyId>)
        ensures
            r matches Some(o) ==> self.owner_id == Some(*o),
            r is None ==> self.owner_id is None,
    {
        match &self.owner_id {
            Some(o) => Some(o),
            None => None,
        }
    }

    /// Whether `navigator_id` owns the block.
    pub fn is_owned_by(&self, navigator_id: &NuttyId) -> (r: bool)
        ensures
            r == (self.owner_id == Some(*navigator_id)),
    {
        match self.owner_id {
            Some(o) => o == *navigator_id,
            None => false,
        }
    }

    /// A builder with nothing set.
    pub fn builder() -> (r: ContentBlockBuilder)
        ensures
            r.nutty_id is None && r.owner_id is None && r.parent_id is None && r.f_index is None
                && r.content is None && r.created_at is None && r.updated_at is None,
    {
        ContentBlockBuilder {
            nutty_id: None,
            owner_id: None,
            parent_id: None,
            f_index: None,
            content: None,
            created_at: None,
            updated_at: None,
        }
    }
}

/// Errors of block construction.
#[derive(Debug, Clone, PartialEq, Eq)]
pub enum ContentBlockBuilderError {
    MissingContent,
    MissingIndex,
    /// The update time lies before the creation time.
    InvalidUpdatedAt,
    /// Identifier and timestamps must be given all together or not at all.
    PartialTimestampContext,
}

/// Collects the parts of a block.
#[derive(Debug)]
pub struct ContentBlockBuilder {
    pub nutty_id: Option<NuttyId>,
    pub owner_id: Option<NuttyId>,
    pub parent_id: Option<NuttyId>,
    pub f_index: Option<FractionalIndex>,
    pub content: Option<BlockContent>,
    pub created_at: Option<i64>,
    pub updated_at: Option<i64>,
}

impl ContentBlockBuilder {
    /// Sets the identifier.
    pub fn nutty_id(self, nutty_id: NuttyId) -> (r: Self)
        ensures
            r == (ContentBlockBuilder { nutty_id: Some(nutty_id), ..self }),
    {
        ContentBlockBuilder { nutty_id: Some(nutty_id), ..self }
    }

    /// Sets the owner.
    pub fn owner_id(self, owner_id: Option<NuttyId>) -> (r: Self)
        ensures
            r == (ContentBlockBuilder { owner_id, ..self }),
    {
        ContentBlockBuilder { owner_id, ..self }
    }

    /// Sets the parent.
    pub fn parent_id(self, parent_id: Option<NuttyId>) -> (r: Self)
        ensures
            r == (ContentBlockBuilder { parent_id, ..self }),
    {
        ContentBlockBuilder { parent_id, ..self }
    }

    /// Sets the order key.
    pub fn f_index(self, f_index: FractionalIndex) -> (r: Self)
        ensures
            r == (ContentBlockBuilder { f_index: Some(f_index), ..self }),
    {
        ContentBlockBuilder { f_index: Some(f_index), ..self }
    }

    /// Sets the content.
    pub fn content(self, content: BlockContent) -> (r: Self)
        ensures
            r == (ContentBlockBuilder { content: Some(content), ..self }),
    {
        ContentBlockBuilder { content: Some(content), ..self }
    }

    /// Sets the creation time, in milliseconds.
    pub fn created_at(self, created_at: i64) -> (r: Self)
        ensures
            r == (ContentBlockBuilder { created_at: Some(created_at), ..self }),
    {
        ContentBlockBuilder { created_at: Some(created_at), ..self }
    }

    /// Sets the update time, in milliseconds.
    pub fn updated_at(self, updated_at: i64) -> (r: Self)
        ensures
            r == (ContentBlockBuilder { updated_at: Some(updated_at), ..self }),
    {
        ContentBlockBuilder { updated_at: Some(updated_at), ..self }
    }

    /// The block: with identifier and both times given, as given (the update
    /// not before the creation); with none of them, fresh; otherwise an error.
    pub fn try_build(self) -> (r: Result<ContentBlock, ContentBlockBuilderError>)
        ensures
            self.f_index is None ==> r == Err::<ContentBlock, _>(ContentBlockBuilderError::MissingIndex),
            self.f_index is Some && self.content is None ==> r == Err::<ContentBlock, _>(
                ContentBlockBuilderError::MissingContent,
            ),
            self.f_index is Some && self.content is Some ==> match (
                self.nutty_id,
                self.created_at,
                self.updated_at,
            ) {
                (Some(id), Some(c), Some(u)) => if u < c {
                    r == Err::<ContentBlock, _>(ContentBlockBuilderError::InvalidUpdatedAt)
                } else {
                    r == Ok::<ContentBlock, ContentBlockBuilderError>(
                        ContentBlock {
                            nutty_id: id,
                            owner_id: self.owner_id,
                            parent_id: self.parent_id,
                            f_index: self.f_index->0,
                            content: self.content->0,
                            created_at: c,
                            updated_at: u,
                        },
                    )
                },
                (None, None, None) => r matches Ok(b) && b.owner_id == self.owner_id && b.parent_id
                    == self.parent_id && b.f_index == self.f_index->0 && b.content
                    == self.content->0,
                _ => r == Err::<ContentBlock, _>(ContentBlockBuilderError::PartialTimestampContext),
            },
    {
        let f_index = match self.f_index {
            Some(f) => f,
            None => {
                return Err(ContentBlockBuilderError::MissingIndex);
            },
        };
        let content = match self.content {
            Some(c) => c,
            None => {
                return Err(ContentBlockBuilderError::MissingContent);
            },
        };
        match (self.nutty_id, self.created_at, self.updated_at) {
            (Some(nutty_id), Some(created_at), Some(updated_at)) => {
                if updated_at < created_at {
                    return Err(ContentBlockBuilderError::InvalidUpdatedAt);
                }
                Ok(
                    ContentBlock {
                        nutty_id,
                        owner_id: self.owner_id,
                        parent_id: self.parent_id,
                        f_index,
                        content,
                        created_at,
                        updated_at,
                    },
                )
            },
            (None, None, None) => match self.owner_id {
                Some(owner) => Ok(ContentBlock::now_with_owner(self.parent_id, owner, f_index, content)),
                None => Ok(ContentBlock::now(self.parent_id, f_index, content)),
            },
            _ => Err(ContentBlockBuilderError::PartialTimestampContext),
        }
    }
}

/// `a` and `b` are copies of one block.
pub open spec fn same_block(a: ContentBlock, b: ContentBlock) -> bool {
    &&& a.nutty_id == b.nutty_id
    &&& a.owner_id == b.owner_id
    &&& a.parent_id == b.parent_id
    &&& a.f_index@ == b.f_index@
    &&& a.content == b.content
    &&& a.created_at == b.created_at
    &&& a.updated_at == b.updated_at
}

/// A directed reference from the block `source_id` to the block `target_id`.
#[derive(Debug, Clone, Copy, PartialEq, Eq, Structural)]
pub struct ContentLink {
    pub nutty_id: NuttyId,
    pub source_id: NuttyId,
    pub target_id: NuttyId,
}

impl ContentLink {
    /// The link `nutty_id` from `source_id` to `target_id`.
    pub fn new(nutty_id: NuttyId, source_id: NuttyId, target_id: NuttyId) -> (r: Self)
        ensures
            r == (ContentLink { nutty_id, source_id, target_id }),
    {
        ContentLink { nutty_id, source_id, target_id }
    }

    /// A link from `source_id` to `target_id` with a fresh identifier.
    pub fn now(source_id: NuttyId, target_id: NuttyId) -> (r: Self)
        ensures
            r.source_id == source_id,
            r.target_id == target_id,
    {
        ContentLink { nutty_id: NuttyId::now(), source_id, target_id }
    }
}

/// What a link replacement changed: the targets linked anew and those unlinked.
#[derive(Debug, Clone)]
pub struct LinkChanges {
    pub inserted: Vec<NuttyId>,
    pub removed: Vec<NuttyId>,
}

/// Block identifiers are unique.
pub open spec fn ids_unique(blocks: Seq<ContentBlock>) -> bool {
    forall|i: int, j: int|
        0 <= i < j < blocks.len() ==> #[trigger] blocks[i].nutty_id != #[trigger] blocks[j].nutty_id
}

/// Links are unique on their (source, target) pair.
pub open spec fn pairs_unique(links: Seq<ContentLink>) -> bool {
    forall|i: int, j: int|
        0 <= i < j < links.len() ==> !(#[trigger] links[i].source_id == #[trigger] links[j].source_id
            && links[i].target_id == links[j].target_id)
}

/// Some block has identifier `id`.
pub open spec fn has_block(blocks: Seq<ContentBlock>, id: NuttyId) -> bool {
    exists|i: int| 0 <= i < blocks.len() && #[trigger] blocks[i].nutty_id == id
}

/// Index of the block with identifier `id`, or -1.
pub open spec fn index_of(blocks: Seq<ContentBlock>, id: NuttyId) -> int {
    if has_block(blocks, id) {
        choose|i: int| 0 <= i < blocks.len() && #[trigger] blocks[i].nutty_id == id
    } else {
        -1
    }
}

/// Parent of the block `id`, if the block exists and has one.
pub open spec fn parent_in(blocks: Seq<ContentBlock>, id: NuttyId) -> Option<NuttyId> {
    if has_block(blocks, id) {
        blocks[index_of(blocks, id)].parent_id
    } else {
        None
    }
}

/// Up to `fuel` ancestors of `id`, nearest first, following parents that exist.
pub open spec fn ancestor_chain(blocks: Seq<ContentBlock>, id: NuttyId, fuel: nat) -> Seq<NuttyId>
    decreases fuel,
{
    if fuel == 0 {
        Seq::empty()
    } else {
        match parent_in(blocks, id) {
            Some(p) => if has_block(blocks, p) {
                seq![p] + ancestor_chain(blocks, p, (fuel - 1) as nat)
            } else {
                Seq::empty()
            },
            None => Seq::empty(),
        }
    }
}

/// Ancestors of `id`, nearest first; the walk takes at most one step per block.
pub open spec fn ancestors_of(blocks: Seq<ContentBlock>, id: NuttyId) -> Seq<NuttyId> {
    ancestor_chain(blocks, id, blocks.len())
}

/// The block `b` lies below the block `id`.
pub open spec fn is_descendant_of(blocks: Seq<ContentBlock>, b: NuttyId, id: NuttyId) -> bool {
    ancestors_of(blocks, b).contains(id)
}

/// Some link goes from `source` to `target`.
pub open spec fn has_link(links: Seq<ContentLink>, source: NuttyId, target: NuttyId) -> bool {
    exists|i: int|
        0 <= i < links.len() && #[trigger] links[i].source_id == source && links[i].target_id
            == target
}

/// Whether a link survives a replacement of the targets of `source` by `targets`.
pub open spec fn keeps(source: NuttyId, targets: Seq<NuttyId>, l: ContentLink) -> bool {
    !(l.source_id == source && !targets.contains(l.target_id))
}

/// `new` is `old` after the targets of `source` were replaced by `targets`: links
/// that stay keep their place and identity, dropped targets are listed in
/// `removed`, and the new links, for targets not linked before, come last in
/// the order of `inserted`.
pub open spec fn relinked(
    old: Seq<ContentLink>,
    source: NuttyId,
    targets: Seq<NuttyId>,
    new: Seq<ContentLink>,
    inserted: Seq<NuttyId>,
    removed: Seq<NuttyId>,
) -> bool {
    let kept = old.filter(|l: ContentLink| keeps(source, targets, l));
    &&& new.len() == kept.len() + inserted.len()
    &&& new.take(kept.len() as int) == kept
    &&& forall|k: int|
        0 <= k < inserted.len() ==> (#[trigger] new[kept.len() + k]).source_id == source
            && new[kept.len() + k].target_id == inserted[k]
    &&& inserted.no_duplicates()
    &&& forall|t: NuttyId| #[trigger]
        inserted.contains(t) <==> targets.contains(t) && !has_link(old, source, t)
    &&& removed == old.filter(|l: ContentLink| !keeps(source, targets, l)).map_values(
        |l: ContentLink| l.target_id,
    )
}

/// Whether `ids` holds `id`.
fn contains_id(ids: &Vec<NuttyId>, id: NuttyId) -> (r: bool)
    ensures
        r == ids@.contains(id),
{
    let mut i: usize = 0;
    while i < ids.len()
        invariant
            i <= ids@.len(),
            forall|j: int| 0 <= j < i ==> ids@[j] != id,
        decreases ids@.len() - i,
    {
        if ids[i] == id {
            return true;
        }
        i = i + 1;
    }
    false
}

/// The blocks and links of the hierarchy.
pub struct ContentStore {
    blocks: Vec<ContentBlock>,
    links: Vec<ContentLink>,
}

impl ContentStore {
    /// The blocks, in store order.
    pub closed spec fn blocks(&self) -> Seq<ContentBlock> {
        self.blocks@
    }

    /// The links, in store order.
    pub closed spec fn links(&self) -> Seq<ContentLink> {
        self.links@
    }

    /// Identifiers of blocks, and (source, target) pairs of links, are unique.
    pub open spec fn wf(&self) -> bool {
        ids_unique(self.blocks()) && pairs_unique(self.links())
    }

    /// An empty hierarchy.
    pub fn new() -> (r: Self)
        ensures
            r.wf(),
            r.blocks().len() == 0,
            r.links().len() == 0,
    {
        ContentStore { blocks: Vec::new(), links: Vec::new() }
    }

    /// Index of the block `id` in store order.
    fn position(&self, id: NuttyId) -> (r: Option<usize>)
        requires
            self.wf(),
        ensures
            has_block(self.blocks(), id) <==> r is Some,
            r matches Some(i) ==> i == index_of(self.blocks(), id) && 0 <= i < self.blocks().len()
                && self.blocks()[i as int].nutty_id == id,
    {
        let mut i: usize = 0;
        while i < self.blocks.len()
            invariant
                self.wf(),
                i <= self.blocks@.len(),
                forall|j: int| 0 <= j < i ==> self.blocks@[j].nutty_id != id,
            decreases self.blocks@.len() - i,
        {
            if self.blocks[i].nutty_id == id {
                proof {
                    let k = index_of(self.blocks(), id);
                    assert(self.blocks()[k].nutty_id == id);
                    if k < i {
                        assert(self.blocks()[k].nutty_id != self.blocks()[i as int].nutty_id);
                    } else if k > i {
                        assert(self.blocks()[i as int].nutty_id != self.blocks()[k].nutty_id);
                    }
                    assert(k == i as int);
                }
                return Some(i);
            }
            i = i + 1;
        }
        None
    }

    /// The block `id`, if there is one.
    pub fn get(&self, id: NuttyId) -> (r: Option<&ContentBlock>)
        requires
            self.wf(),
        ensures
            has_block(self.blocks(), id) <==> r is Some,
            r matches Some(b) ==> *b == self.blocks()[index_of(self.blocks(), id)],
    {
        match self.position(id) {
            Some(i) => Some(&self.blocks[i]),
            None => None,
        }
    }

    /// Identifiers of the ancestors of `id`, nearest first; empty for a root or an unknown block.
    pub fn ancestor_ids(&self, id: NuttyId) -> (r: Vec<NuttyId>)
        requires
            self.wf(),
        ensures
            r@ == ancestors_of(self.blocks(), id),
    {
        let ghost blocks = self.blocks();
        let mut out: Vec<NuttyId> = Vec::new();
        let mut cur = id;
        let mut fuel = self.blocks.len();
        while fuel > 0
            invariant
                blocks == self.blocks(),
                self.wf(),
                ancestors_of(blocks, id) == out@ + ancestor_chain(blocks, cur, fuel as nat),
            decreases fuel,
        {
            let ghost f = fuel as nat;
            match self.position(cur) {
                None => {
                    assert(ancestor_chain(blocks, cur, f) =~= Seq::<NuttyId>::empty());
                    assert(out@ + Seq::<NuttyId>::empty() =~= out@);
                    fuel = 0;
                },
                Some(i) => match self.blocks[i].parent_id {
                    None => {
                        assert(ancestor_chain(blocks, cur, f) =~= Seq::<NuttyId>::empty());
                        assert(out@ + Seq::<NuttyId>::empty() =~= out@);
                        fuel = 0;
                    },
                    Some(p) => match self.position(p) {
                        None => {
                            assert(ancestor_chain(blocks, cur, f) =~= Seq::<NuttyId>::empty());
                            assert(out@ + Seq::<NuttyId>::empty() =~= out@);
                            fuel = 0;
                        },
                        Some(_) => {
                            let ghost before = out@;
                            out.push(p);
                            assert(before + ancestor_chain(blocks, cur, f) =~= out@
                                + ancestor_chain(blocks, p, (f - 1) as nat));
                            cur = p;
                            fuel = fuel - 1;
                        },
                    },
                },
            }
        }
        assert(out@ + ancestor_chain(blocks, cur, 0) =~= out@);
        out
    }

    /// The ancestors of `id`, nearest first; empty for a root or an unknown block.
    pub fn ancestors(&self, id: NuttyId) -> (r: Vec<&ContentBlock>)
        requires
            self.wf(),
        ensures
            r@.len() == ancestors_of(self.blocks(), id).len(),
            forall|k: int|
                0 <= k < r@.len() ==> *#[trigger] r@[k] == self.blocks()[index_of(
                    self.blocks(),
                    ancestors_of(self.blocks(), id)[k],
                )] && r@[k].nutty_id == ancestors_of(self.blocks(), id)[k],
    {
        let ids = self.ancestor_ids(id);
        let mut out: Vec<&ContentBlock> = Vec::new();
        let mut k: usize = 0;
        while k < ids.len()
            invariant
                self.wf(),
                ids@ == ancestors_of(self.blocks(), id),
                k <= ids@.len(),
                out@.len() == k,
                forall|j: int|
                    0 <= j < k ==> *#[trigger] out@[j] == self.blocks()[index_of(
                        self.blocks(),
                        ids@[j],
                    )] && out@[j].nutty_id == ids@[j],
            decreases ids@.len() - k,
        {
            proof {
                lemma_chain_members_exist(self.blocks(), id, self.blocks().len(), k as int);
            }
            match self.position(ids[k]) {
                Some(i) => {
                    out.push(&self.blocks[i]);
                },
                None => {
                    assert(false);
                },
            }
            k = k + 1;
        }
        out
    }

    /// The blocks below `id` at any depth, in store order; empty for a leaf or an unknown block.
    pub fn descendants(&self, id: NuttyId) -> (r: Vec<&ContentBlock>)
        requires
            self.wf(),
        ensures
            r@.map_values(|b: &ContentBlock| *b) == self.blocks().filter(
                |b: ContentBlock| is_descendant_of(self.blocks(), b.nutty_id, id),
            ),
    {
        let ghost pred = |b: ContentBlock| is_descendant_of(self.blocks(), b.nutty_id, id);
        let mut out: Vec<&ContentBlock> = Vec::new();
        let mut i: usize = 0;
        while i < self.blocks.len()
            invariant
                self.wf(),
                i <= self.blocks@.len(),
                pred == (|b: ContentBlock| is_descendant_of(self.blocks(), b.nutty_id, id)),
                out@.map_values(|b: &ContentBlock| *b) == self.blocks().take(i as int).filter(pred),
            decreases self.blocks@.len() - i,
        {
            let b = &self.blocks[i];
            let up = self.ancestor_ids(b.nutty_id);
            let below = contains_id(&up, id);
            let ghost before = out@;
            if below {
                out.push(b);
            }
            proof {
                let s = self.blocks();
                assert(s.take(i + 1).drop_last() =~= s.take(i as int));
                reveal(Seq::filter);
                if below {
                    assert(out@.map_values(|b: &ContentBlock| *b) =~= before.map_values(
                        |b: &ContentBlock| *b,
                    ).push(*b));
                } else {
                    assert(out@ == before);
                }
            }
            i = i + 1;
        }
        assert(self.blocks().take(self.blocks@.len() as int) =~= self.blocks());
        out
    }

    /// The blocks whose parent is `id`, taken from its descendants.
    pub fn children(&self, id: NuttyId) -> (r: Vec<&ContentBlock>)
        requires
            self.wf(),
        ensures
            r@.map_values(|b: &ContentBlock| *b) == self.blocks().filter(
                |b: ContentBlock| is_descendant_of(self.blocks(), b.nutty_id, id),
            ).filter(|b: ContentBlock| b.parent_id == Some(id)),
    {
        let below = self.descendants(id);
        let ghost all = below@.map_values(|b: &ContentBlock| *b);
        let ghost pred = |b: ContentBlock| b.parent_id == Some(id);
        let mut out: Vec<&ContentBlock> = Vec::new();
        let mut i: usize = 0;
        while i < below.len()
            invariant
                i <= below@.len(),
                all == below@.map_values(|b: &ContentBlock| *b),
                pred == (|b: ContentBlock| b.parent_id == Some(id)),
                out@.map_values(|b: &ContentBlock| *b) == all.take(i as int).filter(pred),
            decreases below@.len() - i,
        {
            let b = below[i];
            let ghost before = out@;
            let is_child = match b.parent_id {
                Some(p) => p == id,
                None => false,
            };
            if is_child {
                out.push(b);
            }
            proof {
                assert(all.take(i + 1).drop_last() =~= all.take(i as int));
                assert(all[i as int] == *b);
                reveal(Seq::filter);
                if is_child {
                    assert(out@.map_values(|b: &ContentBlock| *b) =~= before.map_values(
                        |b: &ContentBlock| *b,
                    ).push(*b));
                } else {
                    assert(out@ == before);
                }
            }
            i = i + 1;
        }
        assert(all.take(below@.len() as int) =~= all);
        out
    }

    /// The links whose source is `id`, in store order.
    pub fn links_from(&self, id: NuttyId) -> (r: Vec<ContentLink>)
        ensures
            r@ == self.links().filter(|l: ContentLink| l.source_id == id),
    {
        let ghost pred = |l: ContentLink| l.source_id == id;
        let mut out: Vec<ContentLink> = Vec::new();
        let mut i: usize = 0;
        while i < self.links.len()
            invariant
                i <= self.links@.len(),
                pred == (|l: ContentLink| l.source_id == id),
                out@ == self.links().take(i as int).filter(pred),
            decreases self.links@.len() - i,
        {
            let l = self.links[i];
            if l.source_id == id {
                out.push(l);
            }
            proof {
                assert(self.links().take(i + 1).drop_last() =~= self.links().take(i as int));
                reveal(Seq::filter);
            }
            i = i + 1;
        }
        assert(self.links().take(self.links@.len() as int) =~= self.links());
        out
    }

    /// The links whose target is `id`, in store order.
    pub fn links_to(&self, id: NuttyId) -> (r: Vec<ContentLink>)
        ensures
            r@ == self.links().filter(|l: ContentLink| l.target_id == id),
    {
        let ghost pred = |l: ContentLink| l.target_id == id;
        let mut out: Vec<ContentLink> = Vec::new();
        let mut i: usize = 0;
        while i < self.links.len()
            invariant
                i <= self.links@.len(),
                pred == (|l: ContentLink| l.target_id == id),
                out@ == self.links().take(i as int).filter(pred),
            decreases self.links@.len() - i,
        {
            let l = self.links[i];
            if l.target_id == id {
                out.push(l);
            }
            proof {
                assert(self.links().take(i + 1).drop_last() =~= self.links().take(i as int));
                reveal(Seq::filter);
            }
            i = i + 1;
        }
        assert(self.links().take(self.links@.len() as int) =~= self.links());
        out
    }

    /// Whether a link goes from `source` to `target`.
    pub fn link_exists(&self, source: NuttyId, target: NuttyId) -> (r: bool)
        ensures
            r == has_link(self.links(), source, target),
    {
        let mut i: usize = 0;
        while i < self.links.len()
            invariant
                i <= self.links@.len(),
                forall|j: int|
                    0 <= j < i ==> !(#[trigger] self.links@[j].source_id == source
                        && self.links@[j].target_id == target),
            decreases self.links@.len() - i,
        {
            let l = self.links[i];
            if l.source_id == source && l.target_id == target {
                return true;
            }
            i = i + 1;
        }
        false
    }

    /// The link with identifier `id`, if any (the first in store order).
    pub fn get_content_link(&self, id: NuttyId) -> (r: Option<ContentLink>)
        ensures
            r matches Some(l) ==> l.nutty_id == id && self.links().contains(l),
            r is None ==> forall|k: int| 0 <= k < self.links().len() ==> (#[trigger] self.links()[k]).nutty_id != id,
    {
        let mut i: usize = 0;
        while i < self.links.len()
            invariant
                i <= self.links@.len(),
                forall|k: int| 0 <= k < i ==> (#[trigger] self.links@[k]).nutty_id != id,
            decreases self.links@.len() - i,
        {
            let l = self.links[i];
            if l.nutty_id == id {
                assert(self.links()[i as int] == l);
                return Some(l);
            }
            i = i + 1;
        }
        None
    }

    /// Adds `link` unless a link with its source and target exists; returns
    /// whether it was added.
    pub fn upsert_content_link(&mut self, link: ContentLink) -> (r: bool)
        requires
            old(self).wf(),
        ensures
            final(self).wf(),
            final(self).blocks() == old(self).blocks(),
            r == !has_link(old(self).links(), link.source_id, link.target_id),
            r ==> final(self).links() == old(self).links().push(link),
            !r ==> final(self).links() == old(self).links(),
    {
        if self.link_exists(link.source_id, link.target_id) {
            return false;
        }
        let ghost before = self.links@;
        self.links.push(link);
        proof {
            assert forall|a: int, b: int|
                0 <= a < b < self.links@.len() implies !(#[trigger] self.links@[a].source_id
                == #[trigger] self.links@[b].source_id && self.links@[a].target_id
                == self.links@[b].target_id) by {
                if b < before.len() {
                    assert(!(before[a].source_id == before[b].source_id && before[a].target_id
                        == before[b].target_id));
                } else {
                    assert(self.links@[a] == before[a]);
                    if before[a].source_id == link.source_id && before[a].target_id == link.target_id {
                        assert(has_link(before, link.source_id, link.target_id));
                    }
                }
            }
        }
        true
    }

    /// Removes the links with identifier `id`.
    pub fn delete_content_link(&mut self, id: NuttyId)
        requires
            old(self).wf(),
        ensures
            final(self).wf(),
            final(self).blocks() == old(self).blocks(),
            final(self).links() == old(self).links().filter(|l: ContentLink| l.nutty_id != id),
    {
        let ghost before = self.links@;
        let ghost pred = |l: ContentLink| l.nutty_id != id;
        let mut kept: Vec<ContentLink> = Vec::new();
        let ghost mut idx: Seq<int> = Seq::empty();
        let mut i: usize = 0;
        while i < self.links.len()
            invariant
                self.links@ == before,
                pairs_unique(before),
                i <= before.len(),
                pred == (|l: ContentLink| l.nutty_id != id),
                kept@ == before.take(i as int).filter(pred),
                idx.len() == kept@.len(),
                forall|k: int|
                    0 <= k < idx.len() ==> 0 <= #[trigger] idx[k] < i && kept@[k] == before[idx[k]],
                forall|a: int, b: int| 0 <= a < b < idx.len() ==> #[trigger] idx[a] < #[trigger] idx[b],
            decreases before.len() - i,
        {
            let l = self.links[i];
            if l.nutty_id != id {
                kept.push(l);
                proof {
                    idx = idx.push(i as int);
                }
            }
            proof {
                assert(before.take(i + 1).drop_last() =~= before.take(i as int));
                reveal(Seq::filter);
            }
            i = i + 1;
        }
        proof {
            assert(before.take(before.len() as int) =~= before);
            lemma_sub_unique(before, kept@, idx);
        }
        self.links = kept;
    }

    /// Inserts `block`, or replaces the block with its identifier (parent, order
    /// key, owner and content alike). The store sets the timestamps: `now` for the
    /// update, and for the creation unless the block existed before.
    pub fn upsert(&mut self, block: ContentBlock, now: i64)
        requires
            old(self).wf(),
        ensures
            final(self).wf(),
            final(self).links() == old(self).links(),
            upserted(old(self).blocks(), block, now, final(self).blocks()),
    {
        let mut block = block;
        let ghost given = block;
        match self.position(block.nutty_id) {
            Some(i) => {
                block.created_at = self.blocks[i].created_at;
                block.updated_at = now;
                assert(block == stamped(given, block.created_at, now));
                self.blocks.set(i, block);
                proof {
                    assert forall|a: int, b: int|
                        0 <= a < b < self.blocks@.len() implies #[trigger] self.blocks@[a].nutty_id
                        != #[trigger] self.blocks@[b].nutty_id by {
                        assert(old(self).blocks@[a].nutty_id != old(self).blocks@[b].nutty_id);
                    }
                }
            },
            None => {
                block.created_at = now;
                block.updated_at = now;
                assert(block == stamped(given, now, now));
                self.blocks.push(block);
                proof {
                    assert forall|a: int, b: int|
                        0 <= a < b < self.blocks@.len() implies #[trigger] self.blocks@[a].nutty_id
                        != #[trigger] self.blocks@[b].nutty_id by {
                        if b < old(self).blocks@.len() {
                            assert(old(self).blocks@[a].nutty_id != old(self).blocks@[b].nutty_id);
                        } else {
                            assert(old(self).blocks@[a].nutty_id == self.blocks@[a].nutty_id);
                        }
                    }
                }
            },
        }
    }

    /// Removes the block `id` (not its descendants) and every link from or to it.
    pub fn delete(&mut self, id: NuttyId)
        requires
            old(self).wf(),
        ensures
            final(self).wf(),
            has_block(old(self).blocks(), id) ==> final(self).blocks() == old(self).blocks().remove(
                index_of(old(self).blocks(), id),
            ),
            !has_block(old(self).blocks(), id) ==> final(self).blocks() == old(self).blocks(),
            final(self).links() == old(self).links().filter(
                |l: ContentLink| l.source_id != id && l.target_id != id,
            ),
    {
        match self.position(id) {
            Some(i) => {
                self.blocks.remove(i);
                proof {
                    assert forall|a: int, b: int|
                        0 <= a < b < self.blocks@.len() implies #[trigger] self.blocks@[a].nutty_id
                        != #[trigger] self.blocks@[b].nutty_id by {
                        let oa = if a < i { a } else { a + 1 };
                        let ob = if b < i { b } else { b + 1 };
                        assert(self.blocks@[a] == old(self).blocks@[oa]);
                        assert(self.blocks@[b] == old(self).blocks@[ob]);
                        assert(old(self).blocks@[oa].nutty_id != old(self).blocks@[ob].nutty_id);
                    }
                }
            },
            None => {},
        }
        let ghost before = self.links@;
        let ghost pred = |l: ContentLink| l.source_id != id && l.target_id != id;
        let mut kept: Vec<ContentLink> = Vec::new();
        let ghost mut idx: Seq<int> = Seq::empty();
        let mut i: usize = 0;
        while i < self.links.len()
            invariant
                self.links@ == before,
                pairs_unique(before),
                i <= before.len(),
                pred == (|l: ContentLink| l.source_id != id && l.target_id != id),
                kept@ == before.take(i as int).filter(pred),
                idx.len() == kept@.len(),
                forall|k: int|
                    0 <= k < idx.len() ==> 0 <= #[trigger] idx[k] < i && kept@[k] == before[idx[k]],
                forall|a: int, b: int| 0 <= a < b < idx.len() ==> #[trigger] idx[a] < #[trigger] idx[b],
            decreases before.len() - i,
        {
            let l = self.links[i];
            if l.source_id != id && l.target_id != id {
                kept.push(l);
                proof {
                    idx = idx.push(i as int);
                }
            }
            proof {
                assert(before.take(i + 1).drop_last() =~= before.take(i as int));
                reveal(Seq::filter);
            }
            i = i + 1;
        }
        proof {
            assert(before.take(before.len() as int) =~= before);
            lemma_sub_unique(before, kept@, idx);
        }
        self.links = kept;
    }

    /// The first block, in store order, whose short identifier is `nid`.
    pub fn resolve_nutty_id(&self, nid: &DissociatedNuttyId) -> (r: Option<NuttyId>)
        ensures
            r == resolve_in(self.blocks(), nid@),
    {
        let text = nid.nid();
        let mut i: usize = 0;
        assert(self.blocks().skip(0) =~= self.blocks());
        while i < self.blocks.len()
            invariant
                i <= self.blocks@.len(),
                text@ == nid@,
                resolve_in(self.blocks(), nid@) == resolve_in(self.blocks().skip(i as int), nid@),
            decreases self.blocks@.len() - i,
        {
            let id = self.blocks[i].nutty_id;
            let code = id.nid();
            let ghost rest = self.blocks().skip(i as int);
            assert(rest[0] == self.blocks()[i as int]);
            assert(rest.skip(1) =~= self.blocks().skip(i + 1));
            if code == text {
                return Some(id);
            }
            proof {
                if spells(nid@, short_digits(id)) {
                    lemma_spells_unique(code@, nid@, short_digits(id));
                }
            }
            i = i + 1;
        }
        None
    }

    /// The blocks that `nids` name, in order, leaving out those naming no block.
    pub fn resolve_nutty_ids(&self, nids: &Vec<DissociatedNuttyId>) -> (r: Vec<NuttyId>)
        ensures
            r@ == resolve_all(self.blocks(), nids@.map_values(|n: DissociatedNuttyId| n@)),
    {
        let ghost views = nids@.map_values(|n: DissociatedNuttyId| n@);
        let mut out: Vec<NuttyId> = Vec::new();
        let mut i: usize = 0;
        while i < nids.len()
            invariant
                i <= nids@.len(),
                views == nids@.map_values(|n: DissociatedNuttyId| n@),
                out@ == resolve_all(self.blocks(), views.take(i as int)),
            decreases nids@.len() - i,
        {
            let found = self.resolve_nutty_id(&nids[i]);
            proof {
                assert(views.take(i + 1).drop_last() =~= views.take(i as int));
                assert(views.take(i + 1).last() == nids@[i as int]@);
            }
            match found {
                Some(id) => out.push(id),
                None => {},
            }
            i = i + 1;
        }
        assert(views.take(nids@.len() as int) =~= views);
        out
    }

    /// Saves `block` and makes its outgoing links exactly the blocks that
    /// `references` name (short identifiers naming no block are left out), as
    /// one step: no reader sees the new block with the old links.
    pub fn save_with_references(
        &mut self,
        block: ContentBlock,
        now: i64,
        references: &Vec<DissociatedNuttyId>,
    ) -> (r: LinkChanges)
        requires
            old(self).wf(),
        ensures
            final(self).wf(),
            upserted(old(self).blocks(), block, now, final(self).blocks()),
            relinked(
                old(self).links(),
                block.nutty_id,
                resolve_all(
                    final(self).blocks(),
                    references@.map_values(|n: DissociatedNuttyId| n@),
                ),
                final(self).links(),
                r.inserted@,
                r.removed@,
            ),
    {
        let source = block.nutty_id;
        self.upsert(block, now);
        let targets = self.resolve_nutty_ids(references);
        self.replace_links(source, &targets)
    }

    /// Makes the targets of `source` exactly `targets`: links to targets no longer
    /// wanted go, links to new targets come, and links that stay are untouched.
    pub fn replace_links(&mut self, source: NuttyId, targets: &Vec<NuttyId>) -> (r: LinkChanges)
        requires
            old(self).wf(),
        ensures
            final(self).wf(),
            final(self).blocks() == old(self).blocks(),
            relinked(
                old(self).links(),
                source,
                targets@,
                final(self).links(),
                r.inserted@,
                r.removed@,
            ),
    {
        let ghost before = self.links@;
        let ghost keep = |l: ContentLink| keeps(source, targets@, l);
        let ghost drop = |l: ContentLink| !keeps(source, targets@, l);
        let ghost target_of = |l: ContentLink| l.target_id;
        let mut kept: Vec<ContentLink> = Vec::new();
        let mut removed: Vec<NuttyId> = Vec::new();
        let ghost mut idx: Seq<int> = Seq::empty();
        let mut i: usize = 0;
        while i < self.links.len()
            invariant
                self.links@ == before,
                pairs_unique(before),
                i <= before.len(),
                keep == (|l: ContentLink| keeps(source, targets@, l)),
                drop == (|l: ContentLink| !keeps(source, targets@, l)),
                target_of == (|l: ContentLink| l.target_id),
                kept@ == before.take(i as int).filter(keep),
                removed@ == before.take(i as int).filter(drop).map_values(target_of),
                idx.len() == kept@.len(),
                forall|k: int|
                    0 <= k < idx.len() ==> 0 <= #[trigger] idx[k] < i && kept@[k] == before[idx[k]],
                forall|a: int, b: int| 0 <= a < b < idx.len() ==> #[trigger] idx[a] < #[trigger] idx[b],
            decreases before.len() - i,
        {
            let l = self.links[i];
            let wanted = contains_id(targets, l.target_id);
            let ghost removed_before = removed@;
            let ghost dropped_before = before.take(i as int).filter(drop);
            if l.source_id == source && !wanted {
                removed.push(l.target_id);
            } else {
                kept.push(l);
                proof {
                    idx = idx.push(i as int);
                }
            }
            proof {
                assert(before.take(i + 1).drop_last() =~= before.take(i as int));
                reveal(Seq::filter);
                if l.source_id == source && !wanted {
                    assert(before.take(i + 1).filter(drop) == dropped_before.push(l));
                    assert(dropped_before.push(l).map_values(target_of) =~= dropped_before.map_values(
                        target_of,
                    ).push(l.target_id));
                } else {
                    assert(before.take(i + 1).filter(drop) == dropped_before);
                }
            }
            i = i + 1;
        }
        proof {
            assert(before.take(before.len() as int) =~= before);
            lemma_sub_unique(before, kept@, idx);
        }
        let ghost kept0 = kept@;
        let n_kept = kept.len();
        let mut inserted: Vec<NuttyId> = Vec::new();
        let mut j: usize = 0;
        while j < targets.len()
            invariant
                self.links@ == before,
                j <= targets@.len(),
                n_kept == kept0.len(),
                kept@.len() == n_kept + inserted@.len(),
                kept@.take(n_kept as int) == kept0,
                forall|k: int|
                    0 <= k < inserted@.len() ==> (#[trigger] kept@[n_kept + k]).source_id == source
                        && kept@[n_kept + k].target_id == inserted@[k],
                inserted@.no_duplicates(),
                forall|t: NuttyId| #[trigger]
                    inserted@.contains(t) <==> targets@.take(j as int).contains(t) && !has_link(
                        before,
                        source,
                        t,
                    ),
                pairs_unique(kept@),
                forall|k: int|
                    0 <= k < n_kept ==> 0 <= #[trigger] idx[k] < before.len() && kept@[k]
                        == before[idx[k]],
                idx.len() == n_kept,
            decreases targets@.len() - j,
        {
            let t = targets[j];
            let linked = self.link_exists(source, t);
            let seen = contains_id(&inserted, t);
            let ghost kept_before = kept@;
            let ghost inserted_before = inserted@;
            if !linked && !seen {
                kept.push(ContentLink::now(source, t));
                inserted.push(t);
                proof {
                    assert(kept@.take(n_kept as int) =~= kept_before.take(n_kept as int));
                    assert forall|a: int, b: int| 0 <= a < b < kept@.len() implies !(
                    #[trigger] kept@[a].source_id == #[trigger] kept@[b].source_id
                        && kept@[a].target_id == kept@[b].target_id) by {
                        if b == kept@.len() - 1 && a < n_kept {
                            assert(kept@[a] == before[idx[a]]);
                            if kept@[a].source_id == source && kept@[a].target_id == t {
                                assert(has_link(before, source, t));
                            }
                        } else if b == kept@.len() - 1 {
                            let ka = a - n_kept;
                            assert(kept@[n_kept + ka].target_id == inserted_before[ka]);
                            assert(inserted_before.contains(inserted_before[ka]));
                        } else {
                            assert(kept_before[a] == kept@[a] && kept_before[b] == kept@[b]);
                        }
                    }
                    assert forall|u: NuttyId| #[trigger] inserted@.contains(u) <==> targets@.take(
                        j + 1,
                    ).contains(u) && !has_link(before, source, u) by {
                        assert(targets@.take(j + 1) =~= targets@.take(j as int).push(t));
                        if inserted@.contains(u) && u != t {
                            let k = choose|k: int| 0 <= k < inserted@.len() && #[trigger] inserted@[k] == u;
                            assert(inserted_before[k] == u);
                        }
                        if targets@.take(j + 1).contains(u) && u != t {
                            let k = choose|k: int| 0 <= k < j + 1 && #[trigger] targets@.take(j + 1)[k] == u;
                            assert(targets@.take(j as int)[k] == u);
                        }
                        if u == t {
                            assert(inserted@[inserted@.len() - 1] == t);
                            assert(targets@.take(j + 1)[j as int] == t);
                        } else {
                            if inserted_before.contains(u) {
                                let k = choose|k: int|
                                    0 <= k < inserted_before.len() && #[trigger] inserted_before[k] == u;
                                assert(inserted@[k] == u);
                            }
                            if targets@.take(j as int).contains(u) {
                                let k = choose|k: int|
                                    0 <= k < j && #[trigger] targets@.take(j as int)[k] == u;
                                assert(targets@.take(j + 1)[k] == u);
                            }
                            assert(inserted@.contains(u) == inserted_before.contains(u));
                            assert(targets@.take(j + 1).contains(u) == targets@.take(
                                j as int,
                            ).contains(u));
                        }
                    }
                }
            } else {
                proof {
                    assert forall|u: NuttyId| #[trigger] inserted@.contains(u) <==> targets@.take(
                        j + 1,
                    ).contains(u) && !has_link(before, source, u) by {
                        assert(targets@.take(j + 1) =~= targets@.take(j as int).push(t));
                        if targets@.take(j + 1).contains(u) && u != t {
                            let k = choose|k: int| 0 <= k < j + 1 && #[trigger] targets@.take(j + 1)[k] == u;
                            assert(targets@.take(j as int)[k] == u);
                        }
                        if targets@.take(j as int).contains(u) {
                            let k = choose|k: int| 0 <= k < j && #[trigger] targets@.take(j as int)[k] == u;
                            assert(targets@.take(j + 1)[k] == u);
                        }
                        if u == t {
                            assert(targets@.take(j + 1)[j as int] == t);
                            assert(targets@.take(j + 1).contains(t));
                            if seen {
                                assert(inserted@.contains(t));
                                assert(!has_link(before, source, t));
                            } else {
                                assert(has_link(before, source, t));
                                assert(!inserted@.contains(t));
                            }
                        } else {
                            assert(targets@.take(j + 1).contains(u) == targets@.take(
                                j as int,
                            ).contains(u));
                        }
                    }
                }
            }
            j = j + 1;
        }
        proof {
            assert(targets@.take(targets@.len() as int) =~= targets@);
        }
        self.links = kept;
        LinkChanges { inserted, removed }
    }
}

/// Base-58 digits of the short identifier of `id`.
pub open spec fn short_digits(id: NuttyId) -> Seq<int> {
    b58_padded((id.uuid % SHORT_ID_MODULUS) as nat, 7)
}

/// The first block, in store order, whose short identifier is `nid`.
pub open spec fn resolve_in(blocks: Seq<ContentBlock>, nid: Seq<char>) -> Option<NuttyId>
    decreases blocks.len(),
{
    if blocks.len() == 0 {
        None
    } else if spells(nid, short_digits(blocks[0].nutty_id)) {
        Some(blocks[0].nutty_id)
    } else {
        resolve_in(blocks.skip(1), nid)
    }
}

/// The blocks that `nids` name, in order, leaving out those naming no block.
pub open spec fn resolve_all(blocks: Seq<ContentBlock>, nids: Seq<Seq<char>>) -> Seq<NuttyId>
    decreases nids.len(),
{
    if nids.len() == 0 {
        Seq::empty()
    } else {
        let rest = resolve_all(blocks, nids.drop_last());
        match resolve_in(blocks, nids.last()) {
            Some(id) => rest.push(id),
            None => rest,
        }
    }
}

/// Two texts that spell the same digits are the same text.
proof fn lemma_spells_unique(s1: Seq<char>, s2: Seq<char>, d: Seq<int>)
    requires
        spells(s1, d),
        spells(s2, d),
    ensures
        s1 == s2,
{
    assert forall|i: int| 0 <= i < s1.len() implies s1[i] == s2[i] by {
        assert((s1[i] as int) == (s2[i] as int));
    }
    assert(s1 =~= s2);
}

/// A subsequence, picked by increasing indices, of links with unique pairs has unique pairs.
proof fn lemma_sub_unique(links: Seq<ContentLink>, sub: Seq<ContentLink>, idx: Seq<int>)
    requires
        pairs_unique(links),
        idx.len() == sub.len(),
        forall|k: int|
            0 <= k < idx.len() ==> 0 <= #[trigger] idx[k] < links.len() && sub[k] == links[idx[k]],
        forall|a: int, b: int| 0 <= a < b < idx.len() ==> #[trigger] idx[a] < #[trigger] idx[b],
    ensures
        pairs_unique(sub),
{
    assert forall|a: int, b: int| 0 <= a < b < sub.len() implies !(#[trigger] sub[a].source_id
        == #[trigger] sub[b].source_id && sub[a].target_id == sub[b].target_id) by {
        assert(idx[a] < idx[b]);
        assert(sub[a] == links[idx[a]]);
        assert(sub[b] == links[idx[b]]);
    }
}

/// `new` is `old` with `block` saved at time `now`: a block with the same
/// identifier is replaced in place and keeps its creation time; otherwise the
/// block is appended, created at `now`.
pub open spec fn upserted(
    old: Seq<ContentBlock>,
    block: ContentBlock,
    now: i64,
    new: Seq<ContentBlock>,
) -> bool {
    if has_block(old, block.nutty_id) {
        let i = index_of(old, block.nutty_id);
        new == old.update(i, stamped(block, old[i].created_at, now))
    } else {
        new == old.push(stamped(block, now, now))
    }
}

/// `b` with its timestamps set.
pub open spec fn stamped(b: ContentBlock, created_at: i64, updated_at: i64) -> ContentBlock {
    ContentBlock {
        nutty_id: b.nutty_id,
        owner_id: b.owner_id,
        parent_id: b.parent_id,
        f_index: b.f_index,
        content: b.content,
        created_at,
        updated_at,
    }
}

proof fn lemma_filter_all<A>(s: Seq<A>, p: spec_fn(A) -> bool)
    requires
        forall|i: int| 0 <= i < s.len() ==> p(#[trigger] s[i]),
    ensures
        s.filter(p) == s,
    decreases s.len(),
{
    reveal(Seq::filter);
    if s.len() > 0 {
        lemma_filter_all(s.drop_last(), p);
        assert(s.drop_last().push(s.last()) =~= s);
    }
}

proof fn lemma_filter_none<A>(s: Seq<A>, p: spec_fn(A) -> bool)
    requires
        forall|i: int| 0 <= i < s.len() ==> !p(#[trigger] s[i]),
    ensures
        s.filter(p) == Seq::<A>::empty(),
    decreases s.len(),
{
    reveal(Seq::filter);
    if s.len() > 0 {
        lemma_filter_none(s.drop_last(), p);
    } else {
        assert(s =~= Seq::<A>::empty());
    }
}

/// After a replacement, the targets of `source` are exactly the wanted ones.
pub proof fn lemma_relinked_targets(
    old: Seq<ContentLink>,
    source: NuttyId,
    targets: Seq<NuttyId>,
    new: Seq<ContentLink>,
    inserted: Seq<NuttyId>,
    removed: Seq<NuttyId>,
)
    requires
        relinked(old, source, targets, new, inserted, removed),
    ensures
        forall|t: NuttyId| has_link(new, source, t) <==> targets.contains(t),
        forall|k: int| 0 <= k < new.len() ==> keeps(source, targets, #[trigger] new[k]),
{
    broadcast use vstd::seq_lib::group_filter_ensures;

    let keep = |l: ContentLink| keeps(source, targets, l);
    let kept = old.filter(keep);
    assert forall|k: int| 0 <= k < new.len() implies keeps(source, targets, #[trigger] new[k]) by {
        if k < kept.len() {
            assert(new[k] == new.take(kept.len() as int)[k]);
            assert(keep(kept[k]));
        } else {
            let q = k - kept.len();
            assert(new[kept.len() + q].target_id == inserted[q]);
            assert(inserted.contains(inserted[q]));
        }
    }
    assert forall|t: NuttyId| has_link(new, source, t) <==> targets.contains(t) by {
        if has_link(new, source, t) {
            let k = choose|k: int|
                0 <= k < new.len() && #[trigger] new[k].source_id == source && new[k].target_id == t;
            assert(keeps(source, targets, new[k]));
        }
        if targets.contains(t) {
            if has_link(old, source, t) {
                let i = choose|i: int|
                    0 <= i < old.len() && #[trigger] old[i].source_id == source && old[i].target_id
                        == t;
                assert(keep(old[i]));
                assert(kept.contains(old[i]));
                let k = choose|k: int| 0 <= k < kept.len() && kept[k] == old[i];
                assert(new[k] == new.take(kept.len() as int)[k]);
                assert(new[k].source_id == source && new[k].target_id == t);
            } else {
                assert(inserted.contains(t));
                let q = choose|q: int| 0 <= q < inserted.len() && inserted[q] == t;
                assert(new[kept.len() + q].source_id == source);
                assert(new[kept.len() + q].target_id == t);
            }
        }
    }
}

/// Saving the same references twice: the second replacement finds every wanted
/// target linked and nothing to drop, so the links stay exactly as they were and
/// nothing is inserted or removed.
pub proof fn lemma_relink_idempotent(
    l0: Seq<ContentLink>,
    source: NuttyId,
    targets: Seq<NuttyId>,
    l1: Seq<ContentLink>,
    inserted1: Seq<NuttyId>,
    removed1: Seq<NuttyId>,
    l2: Seq<ContentLink>,
    inserted2: Seq<NuttyId>,
    removed2: Seq<NuttyId>,
)
    requires
        relinked(l0, source, targets, l1, inserted1, removed1),
        relinked(l1, source, targets, l2, inserted2, removed2),
    ensures
        l2 == l1,
        inserted2.len() == 0,
        removed2.len() == 0,
{
    lemma_relinked_targets(l0, source, targets, l1, inserted1, removed1);
    let keep = |l: ContentLink| keeps(source, targets, l);
    let drop = |l: ContentLink| !keeps(source, targets, l);
    assert forall|k: int| 0 <= k < l1.len() implies keep(#[trigger] l1[k]) by {
        assert(keeps(source, targets, l1[k]));
    }
    assert forall|k: int| 0 <= k < l1.len() implies !drop(#[trigger] l1[k]) by {
        assert(keeps(source, targets, l1[k]));
    }
    lemma_filter_all(l1, keep);
    lemma_filter_none(l1, drop);
    assert(removed2 =~= Seq::<ContentLink>::empty().map_values(|l: ContentLink| l.target_id));
    if inserted2.len() > 0 {
        let t = inserted2[0];
        assert(inserted2.contains(t));
    }
    assert(l2 =~= l2.take(l1.len() as int));
}

/// A replacement deletes exactly the links from `source` to targets no longer
/// wanted, and no others; `removed` names those targets. When every present
/// target is still wanted, nothing is removed.
pub proof fn lemma_orphan_cleanup(
    old: Seq<ContentLink>,
    source: NuttyId,
    targets: Seq<NuttyId>,
    new: Seq<ContentLink>,
    inserted: Seq<NuttyId>,
    removed: Seq<NuttyId>,
)
    requires
        relinked(old, source, targets, new, inserted, removed),
    ensures
        forall|l: ContentLink| #[trigger]
            old.contains(l) ==> (new.contains(l) <==> keeps(source, targets, l)),
        forall|t: NuttyId| #[trigger]
            removed.contains(t) <==> has_link(old, source, t) && !targets.contains(t),
        (forall|t: NuttyId| has_link(old, source, t) ==> targets.contains(t)) ==> removed.len() == 0,
{
    broadcast use vstd::seq_lib::group_filter_ensures;

    lemma_relinked_targets(old, source, targets, new, inserted, removed);
    let keep = |l: ContentLink| keeps(source, targets, l);
    let drop = |l: ContentLink| !keeps(source, targets, l);
    let kept = old.filter(keep);
    let dropped = old.filter(drop);
    assert forall|l: ContentLink| #[trigger]
        old.contains(l) implies (new.contains(l) <==> keeps(source, targets, l)) by {
        if keeps(source, targets, l) {
            let i = choose|i: int| 0 <= i < old.len() && old[i] == l;
            assert(keep(old[i]));
            assert(kept.contains(old[i]));
            let k = choose|k: int| 0 <= k < kept.len() && kept[k] == l;
            assert(new[k] == new.take(kept.len() as int)[k]);
        }
        if new.contains(l) {
            let k = choose|k: int| 0 <= k < new.len() && new[k] == l;
            assert(keeps(source, targets, new[k]));
        }
    }
    assert forall|t: NuttyId| #[trigger]
        removed.contains(t) <==> has_link(old, source, t) && !targets.contains(t) by {
        if removed.contains(t) {
            let k = choose|k: int| 0 <= k < removed.len() && removed[k] == t;
            assert(drop(dropped[k]));
            assert(dropped.contains(dropped[k]));
            old.lemma_filter_contains_rev(drop, dropped[k]);
            let i = choose|i: int| 0 <= i < old.len() && old[i] == dropped[k];
            assert(old[i].source_id == source && old[i].target_id == t);
        }
        if has_link(old, source, t) && !targets.contains(t) {
            let i = choose|i: int|
                0 <= i < old.len() && #[trigger] old[i].source_id == source && old[i].target_id == t;
            assert(drop(old[i]));
            assert(dropped.contains(old[i]));
            let k = choose|k: int| 0 <= k < dropped.len() && dropped[k] == old[i];
            assert(removed[k] == t);
        }
    }
    if forall|t: NuttyId| has_link(old, source, t) ==> targets.contains(t) {
        if removed.len() > 0 {
            assert(removed.contains(removed[0]));
        }
    }
}

/// Every member of an ancestor chain is a block of the store.
pub proof fn lemma_chain_members_exist(blocks: Seq<ContentBlock>, id: NuttyId, fuel: nat, k: int)
    requires
        0 <= k < ancestor_chain(blocks, id, fuel).len(),
    ensures
        has_block(blocks, ancestor_chain(blocks, id, fuel)[k]),
    decreases fuel,
{
    if fuel > 0 {
        match parent_in(blocks, id) {
            Some(p) => {
                if has_block(blocks, p) && k > 0 {
                    lemma_chain_members_exist(blocks, p, (fuel - 1) as nat, k - 1);
                }
            },
            None => {},
        }
    }
}

} // verus!
