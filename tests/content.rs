use nuttyverse_core::access::AccessCatalog;
use nuttyverse_core::access::PermissionResult;
use nuttyverse_core::access::RolePermission;
use nuttyverse_core::content::BlockContent;
use nuttyverse_core::content::ContentBlock;
use nuttyverse_core::content::ContentBlockBuilderError;
use nuttyverse_core::content::ContentStore;
use nuttyverse_core::fractional_index::FractionalIndex;
use nuttyverse_core::nutty_id::DissociatedNuttyId;
use nuttyverse_core::nutty_id::NuttyId;
use nuttyverse_core::service::AccessTokens;
use nuttyverse_core::service::ContentService;
use nuttyverse_core::service::ContentServiceError;

fn page(id: u128, parent: Option<u128>, owner: Option<u128>) -> ContentBlock {
    ContentBlock::builder()
        .nutty_id(NuttyId::new(id))
        .parent_id(parent.map(NuttyId::new))
        .owner_id(owner.map(NuttyId::new))
        .f_index(FractionalIndex::start())
        .content(BlockContent::Page { title: format!("page {id}") })
        .created_at(1)
        .updated_at(1)
        .try_build()
        .unwrap()
}

fn paragraph(id: u128, text: &str) -> ContentBlock {
    ContentBlock::builder()
        .nutty_id(NuttyId::new(id))
        .f_index(FractionalIndex::start())
        .content(BlockContent::Paragraph { markdown: text.to_string() })
        .created_at(1)
        .updated_at(1)
        .try_build()
        .unwrap()
}

fn nid(id: u128) -> String {
    NuttyId::new(id).nid()
}

fn short(id: u128) -> DissociatedNuttyId {
    DissociatedNuttyId::new(&nid(id)).unwrap()
}

fn chain() -> ContentStore {
    let mut s = ContentStore::new();
    s.upsert(page(1, None, None), 10);
    s.upsert(page(2, Some(1), None), 10);
    s.upsert(page(3, Some(2), Some(77)), 10);
    s
}

#[test]
fn test_content_block_with_owner() {
    let owner_id = NuttyId::now();
    let content = BlockContent::Page { title: "Test Page".to_string() };
    let block = ContentBlock::now_with_owner(None, owner_id, FractionalIndex::start(), content);
    assert_eq!(block.owner_id(), Some(&owner_id));
    assert!(block.is_owned_by(&owner_id));
    let different_owner = NuttyId::now();
    assert!(!block.is_owned_by(&different_owner));
}

#[test]
fn test_content_block_without_owner() {
    let content = BlockContent::Page { title: "Test Page".to_string() };
    let block = ContentBlock::now(None, FractionalIndex::start(), content);
    assert_eq!(block.owner_id(), None);
    assert!(!block.is_owned_by(&NuttyId::now()));
}

#[test]
fn test_content_block_builder_with_owner() {
    let owner_id = NuttyId::now();
    let content = BlockContent::Page { title: "Test Page".to_string() };
    let block = ContentBlock::builder()
        .f_index(FractionalIndex::start())
        .content(content)
        .owner_id(Some(owner_id))
        .try_build()
        .expect("Failed to build content block");
    assert_eq!(block.owner_id(), Some(&owner_id));
    assert!(block.is_owned_by(&owner_id));
}

#[test]
fn builder_errors() {
    let e = ContentBlock::builder().content(BlockContent::Page { title: "t".into() }).try_build();
    assert_eq!(e.unwrap_err(), ContentBlockBuilderError::MissingIndex);
    let e = ContentBlock::builder().f_index(FractionalIndex::start()).try_build();
    assert_eq!(e.unwrap_err(), ContentBlockBuilderError::MissingContent);
    let e = ContentBlock::builder()
        .f_index(FractionalIndex::start())
        .content(BlockContent::Page { title: "t".into() })
        .nutty_id(NuttyId::new(1))
        .created_at(5)
        .updated_at(4)
        .try_build();
    assert_eq!(e.unwrap_err(), ContentBlockBuilderError::InvalidUpdatedAt);
    let e = ContentBlock::builder()
        .f_index(FractionalIndex::start())
        .content(BlockContent::Page { title: "t".into() })
        .created_at(5)
        .try_build();
    assert_eq!(e.unwrap_err(), ContentBlockBuilderError::PartialTimestampContext);
}

#[test]
fn ancestors_are_nearest_first() {
    let s = chain();
    let up: Vec<u128> = s.ancestors(NuttyId::new(3)).iter().map(|b| b.nutty_id.uuid).collect();
    assert_eq!(up, vec![2, 1]);
    assert_eq!(s.ancestor_ids(NuttyId::new(1)), vec![]);
    assert_eq!(s.ancestor_ids(NuttyId::new(99)), vec![]);
}

#[test]
fn descendants_and_children() {
    let s = chain();
    let mut down: Vec<u128> = s.descendants(NuttyId::new(1)).iter().map(|b| b.nutty_id.uuid).collect();
    down.sort();
    assert_eq!(down, vec![2, 3]);
    let kids: Vec<u128> = s.children(NuttyId::new(1)).iter().map(|b| b.nutty_id.uuid).collect();
    assert_eq!(kids, vec![2]);
    assert!(s.descendants(NuttyId::new(3)).is_empty());
    assert!(s.descendants(NuttyId::new(99)).is_empty());
}

#[test]
fn upsert_replaces_and_keeps_creation_time() {
    let mut s = ContentStore::new();
    s.upsert(page(1, None, None), 10);
    s.upsert(page(1, Some(5), None), 20);
    let b = s.get(NuttyId::new(1)).unwrap();
    assert_eq!(b.parent_id, Some(NuttyId::new(5)));
    assert_eq!(b.created_at, 10);
    assert_eq!(b.updated_at, 20);
    assert!(s.get(NuttyId::new(2)).is_none());
}

#[test]
fn resolve_short_ids() {
    let s = chain();
    assert_eq!(s.resolve_nutty_id(&short(2)), Some(NuttyId::new(2)));
    assert_eq!(s.resolve_nutty_id(&short(42)), None);
    assert_eq!(s.resolve_nutty_ids(&vec![short(42), short(3), short(1)]), vec![NuttyId::new(3), NuttyId::new(1)]);
}

#[test]
fn saving_twice_changes_no_links() {
    let mut s = chain();
    let text = format!("see [[{}]] and [[{}|mid]]", nid(1), nid(2));
    let first = {
        let mut svc = ContentService::new(s, AccessCatalog::new(vec![]));
        let r = svc.save_content_block(paragraph(9, &text), 30).1;
        s = svc.repository;
        r
    };
    assert_eq!(first.inserted, vec![NuttyId::new(1), NuttyId::new(2)]);
    assert!(first.removed.is_empty());
    let before = s.links_from(NuttyId::new(9));
    let mut svc = ContentService::new(s, AccessCatalog::new(vec![]));
    let (saved, second) = svc.save_content_block(paragraph(9, &text), 40);
    assert_eq!(saved.nutty_id, NuttyId::new(9));
    assert_eq!(saved.created_at, 30);
    assert_eq!(saved.updated_at, 40);
    assert!(second.inserted.is_empty());
    assert!(second.removed.is_empty());
    assert_eq!(svc.repository.links_from(NuttyId::new(9)), before);
}

#[test]
fn dropping_a_reference_deletes_that_link_only() {
    let mut s = chain();
    s.upsert(paragraph(8, "x"), 5);
    s.replace_links(NuttyId::new(8), &vec![NuttyId::new(1)]);
    let mut svc = ContentService::new(s, AccessCatalog::new(vec![]));
    svc.save_content_block(paragraph(9, &format!("[[{}]] [[{}]]", nid(1), nid(2))), 30);
    let r = svc.save_content_block(paragraph(9, &format!("[[{}]]", nid(1))), 31).1;
    assert_eq!(r.removed, vec![NuttyId::new(2)]);
    assert!(r.inserted.is_empty());
    let targets: Vec<u128> = svc.repository.links_from(NuttyId::new(9)).iter().map(|l| l.target_id.uuid).collect();
    assert_eq!(targets, vec![1]);
    assert_eq!(svc.repository.links_from(NuttyId::new(8)).len(), 1);
    assert_eq!(svc.repository.links_to(NuttyId::new(1)).len(), 2);
}

#[test]
fn unknown_references_are_dropped() {
    let s = chain();
    let mut svc = ContentService::new(s, AccessCatalog::new(vec![]));
    let r = svc.save_content_block(paragraph(9, &format!("[[{}]] [[{}]]", nid(42), nid(3))), 30).1;
    assert_eq!(r.inserted, vec![NuttyId::new(3)]);
}

#[test]
fn delete_removes_block_and_its_links() {
    let mut s = chain();
    s.replace_links(NuttyId::new(1), &vec![NuttyId::new(2), NuttyId::new(3)]);
    s.replace_links(NuttyId::new(3), &vec![NuttyId::new(1)]);
    s.delete(NuttyId::new(1));
    assert!(s.get(NuttyId::new(1)).is_none());
    assert!(s.get(NuttyId::new(2)).is_some());
    assert!(s.links_from(NuttyId::new(3)).is_empty());
    assert!(s.links_to(NuttyId::new(2)).is_empty());
    assert!(!s.link_exists(NuttyId::new(1), NuttyId::new(3)));
}

fn rp(role: &str, permission: &str) -> RolePermission {
    RolePermission { role_name: role.to_string(), permission_name: permission.to_string() }
}

fn service() -> ContentService {
    let c = AccessCatalog::new(vec![
        rp("admin", "content_blocks:read:all"),
        rp("admin", "content_blocks:write:all"),
        rp("viewer", "content_blocks:read:resource"),
        rp("editor", "content_blocks:write"),
        rp("owner", "content_blocks:read:own"),
        rp("owner", "content_blocks:write:own"),
    ]);
    ContentService::new(chain(), c)
}

#[test]
fn read_access_through_ancestor() {
    let mut svc = service();
    let nav = NuttyId::new(50);
    svc.access.grant_resource_role(nav, "viewer", "content_block", NuttyId::new(2)).unwrap();
    assert_eq!(svc.check_content_block_access(nav, &short(3)), Ok(true));
    assert_eq!(svc.check_content_block_access(nav, &short(1)), Ok(false));
    let r = svc.check_block_access(nav, &short(3), &AccessTokens::read());
    assert_eq!(r, Ok(PermissionResult::GrantedResource));
}

#[test]
fn write_access_direct_and_global() {
    let mut svc = service();
    let editor = NuttyId::new(51);
    svc.access.grant_resource_role(editor, "editor", "content_block", NuttyId::new(3)).unwrap();
    assert_eq!(svc.check_content_block_write_access(editor, &short(3)), Ok(true));
    assert_eq!(svc.check_content_block_write_access(editor, &short(2)), Ok(false));
    let admin = NuttyId::new(52);
    svc.access.grant_global_role(admin, "admin").unwrap();
    assert_eq!(
        svc.check_block_access(admin, &short(1), &AccessTokens::write()),
        Ok(PermissionResult::GrantedGlobal)
    );
}

#[test]
fn ownership_needs_permission_and_ownership() {
    let mut svc = service();
    let owner = NuttyId::new(77);
    let stranger = NuttyId::new(78);
    assert_eq!(
        svc.check_block_access(owner, &short(3), &AccessTokens::read()),
        Ok(PermissionResult::Denied)
    );
    svc.access.grant_global_role(stranger, "owner").unwrap();
    assert_eq!(
        svc.check_block_access(stranger, &short(3), &AccessTokens::read()),
        Ok(PermissionResult::Denied)
    );
    svc.access.grant_global_role(owner, "owner").unwrap();
    assert_eq!(
        svc.check_block_access(owner, &short(3), &AccessTokens::read()),
        Ok(PermissionResult::GrantedOwnership)
    );
    assert_eq!(svc.check_content_block_write_access(owner, &short(3)), Ok(true));
}

#[test]
fn global_tier_wins_on_blocks() {
    let c = AccessCatalog::new(vec![rp("admin", "content:read:all"), rp("viewer", "content:read")]);
    let mut svc = ContentService::new(chain(), c);
    let alice = NuttyId::new(60);
    svc.access.grant_global_role(alice, "admin").unwrap();
    svc.access.grant_resource_role(alice, "viewer", "content_block", NuttyId::new(3)).unwrap();
    let tokens = AccessTokens {
        all: "content:read:all".to_string(),
        resource: "content:read".to_string(),
        own: "content:read:own".to_string(),
    };
    assert_eq!(svc.check_block_access(alice, &short(3), &tokens), Ok(PermissionResult::GrantedGlobal));
}

#[test]
fn missing_block_is_an_error() {
    let svc = service();
    assert_eq!(
        svc.check_content_block_access(NuttyId::new(1), &short(999)),
        Err(ContentServiceError::ContentBlockNotFound)
    );
    assert_eq!(
        svc.check_content_block_write_access(NuttyId::new(1), &short(999)),
        Err(ContentServiceError::ContentBlockNotFound)
    );
}

#[test]
fn page_content_has_no_tags() {
    let c = BlockContent::Page { title: format!("[[{}]]", nid(1)) };
    assert!(c.parse_target_tags().is_empty());
    let h = BlockContent::Heading { markdown: format!("# [[{}]]", nid(1)) };
    assert_eq!(h.parse_target_tags().len(), 1);
}

#[test]
fn content_block_context() {
    let mut s = chain();
    s.upsert(page(4, Some(2), None), 10);
    s.replace_links(NuttyId::new(2), &vec![NuttyId::new(1)]);
    s.replace_links(NuttyId::new(3), &vec![NuttyId::new(2)]);
    let svc = ContentService::new(s, AccessCatalog::new(vec![]));
    let ctx = svc.get_content_block_context(&short(2)).unwrap();
    assert_eq!(ctx.block_id(), &NuttyId::new(2));
    assert_eq!(ctx.parent_id(), Some(&NuttyId::new(1)));
    assert_eq!(ctx.children_ids(), &[NuttyId::new(3), NuttyId::new(4)]);
    assert_eq!(ctx.reference_ids(), &[NuttyId::new(1)]);
    assert_eq!(ctx.backlink_ids(), &[NuttyId::new(3)]);
    let mut cached: Vec<u128> = ctx.block_cache().iter().map(|b| b.nutty_id.uuid).collect();
    cached.sort();
    assert_eq!(cached, vec![1, 2, 3, 4]);
    assert!(svc.get_content_block_context(&short(999)).is_err());
}
