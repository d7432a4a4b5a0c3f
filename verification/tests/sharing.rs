use smudgy_ui::map_editor_window::automatic_routing::{
    capture, include_public_obstacle, obstacle_hash, RouteObstacle, RouteRect, WideScalar,
};
use smudgy_ui::map_editor_window::families::{
    copied_from_edges, copy_family_in, family_members_in, Edge, FamilyIndex, FamilyToken, ListedArea,
};
use smudgy_ui::map_editor_window::model::{
    AreaAccess, AreaCache, AreaId, AtlasCache, AtlasId, Connection, ConnectionDash, ConnectionEndpoint, ConnectionId,
    ConnectionKind, ConnectionRouting, CornerStyle, Point, PortMode, RoomCache, RoomNumber, RoomSide, Scalar, SegmentShape,
    UserId,
};
use smudgy_ui::map_editor_window::sharers::{sharer_attribution, OwnerInfo, ShareGrant, SharerIndex};

// ===== Sharers =====

fn grant_row(grantor: UserId, area_id: AreaId, created_at: i64) -> ShareGrant {
    ShareGrant {
        grantor_id: grantor,
        area_id: Some(area_id),
        atlas_id: None,
        created_at,
        grantor_nickname: None,
        owner_nickname: None,
    }
}

#[test]
fn handle_resolves_from_grant_row() {
    let grantor = UserId(10);
    let area = AreaId(100);
    let mut row = grant_row(grantor, area, 0);
    row.grantor_nickname = Some("wbk".to_string());
    let index = SharerIndex::build(&vec![row]);
    let sharer = index.sharer_for(area, None).expect("sharer");
    assert_eq!(sharer.user_id, grantor);
    assert_eq!(sharer.nickname.as_deref(), Some("wbk"));
}

#[test]
fn missing_grantor_handle_leaves_handle_none() {
    let grantor = UserId(10);
    let area = AreaId(100);
    let index = SharerIndex::build(&vec![grant_row(grantor, area, 0)]);
    let sharer = index.sharer_for(area, None).expect("sharer");
    assert_eq!(sharer.user_id, grantor);
    assert!(sharer.nickname.is_none());
}

#[test]
fn earliest_grant_wins_for_same_scope() {
    let early_grantor = UserId(10);
    let late_grantor = UserId(11);
    let area = AreaId(100);
    // The later grant comes first; the earlier `created_at` still wins.
    let index = SharerIndex::build(&vec![
        grant_row(late_grantor, area, 50),
        grant_row(early_grantor, area, 5),
    ]);
    let sharer = index.sharer_for(area, None).expect("sharer");
    assert_eq!(sharer.user_id, early_grantor);
}

#[test]
fn per_area_grant_beats_atlas_scope() {
    let area_grantor = UserId(10);
    let atlas_grantor = UserId(11);
    let area = AreaId(100);
    let atlas = AtlasId(200);

    let area_grant = grant_row(area_grantor, area, 0);
    let mut atlas_grant = grant_row(atlas_grantor, area, 0);
    atlas_grant.area_id = None;
    atlas_grant.atlas_id = Some(atlas);

    let index = SharerIndex::build(&vec![area_grant, atlas_grant]);
    let sharer = index.sharer_for(area, Some(atlas)).expect("sharer");
    assert_eq!(sharer.user_id, area_grantor);
}

#[test]
fn an_atlas_grant_covers_the_areas_filed_in_it() {
    let atlas = AtlasId(200);
    let mut grant = grant_row(UserId(11), AreaId(0), 0);
    grant.area_id = None;
    grant.atlas_id = Some(atlas);
    let index = SharerIndex::build(&vec![grant]);
    assert_eq!(index.sharer_for(AreaId(1), Some(atlas)).map(|sharer| sharer.user_id), Some(UserId(11)));
    assert!(index.sharer_for(AreaId(1), Some(AtlasId(201))).is_none());
    assert!(index.sharer_for(AreaId(1), None).is_none());
}

#[test]
fn a_grant_of_nothing_has_no_sharer() {
    let mut grant = grant_row(UserId(11), AreaId(0), 0);
    grant.area_id = None;
    let index = SharerIndex::build(&vec![grant]);
    assert_eq!(index.entries.len(), 0);
}

#[test]
fn of_two_grants_made_at_once_the_first_wins() {
    let area = AreaId(100);
    let index = SharerIndex::build(&vec![grant_row(UserId(1), area, 7), grant_row(UserId(2), area, 7)]);
    assert_eq!(index.sharer_for(area, None).map(|sharer| sharer.user_id), Some(UserId(1)));
}

fn owned_by(owner: Option<UserId>, nickname: Option<&str>) -> Option<OwnerInfo> {
    Some(OwnerInfo {
        area_id: AreaId(100),
        atlas_id: None,
        owner_id: owner,
        owner_nickname: nickname.map(|nickname| nickname.to_string()),
    })
}

#[test]
fn attribution_names_sharer_and_owner() {
    let mut row = grant_row(UserId(10), AreaId(100), 0);
    row.grantor_nickname = Some("wbk".to_string());
    row.owner_nickname = Some("Mo".to_string());
    let sharers = Some(SharerIndex::build(&vec![row]));

    assert_eq!(sharer_attribution(&None, &sharers), "Shared by a friend");
    assert_eq!(sharer_attribution(&owned_by(Some(UserId(10)), None), &sharers), "Shared by wbk");
    assert_eq!(sharer_attribution(&owned_by(None, None), &sharers), "Shared by wbk");
    assert_eq!(
        sharer_attribution(&owned_by(Some(UserId(12)), None), &sharers),
        "Shared by wbk \u{b7} owned by Mo"
    );
    assert_eq!(
        sharer_attribution(&owned_by(Some(UserId(12)), Some("Ada")), &sharers),
        "Shared by wbk \u{b7} owned by Ada"
    );
    assert_eq!(sharer_attribution(&owned_by(Some(UserId(12)), Some("Ada")), &None), "Shared by Ada");
    assert_eq!(sharer_attribution(&owned_by(Some(UserId(12)), None), &None), "Shared by a friend");
}

// ===== Obstacles =====

fn obstacle(room: i32, x: f64, y: f64) -> RouteObstacle {
    RouteObstacle {
        room_number: RoomNumber(room),
        bounds: RouteRect {
            min_x: WideScalar(x.to_bits()),
            min_y: WideScalar(y.to_bits()),
            max_x: WideScalar((x + 0.5).to_bits()),
            max_y: WideScalar((y + 0.5).to_bits()),
        },
    }
}

#[test]
fn obstacle_signature_is_order_independent_but_geometry_sensitive() {
    let a = obstacle(1, 0.0, 0.0);
    let b = obstacle(2, 2.0, 0.0);
    assert_eq!(obstacle_hash(&vec![a, b]), obstacle_hash(&vec![b, a]));
    assert_ne!(
        obstacle_hash(&vec![a, b]),
        obstacle_hash(&vec![a, obstacle(2, 2.5, 0.0)])
    );
}

#[test]
fn one_changed_byte_changes_the_signature() {
    let all = [obstacle(1, 0.0, 0.0), obstacle(2, 2.0, 0.0)];
    let before = obstacle_hash(&all.to_vec());
    for place in 0..8 {
        let mut changed = all;
        changed[0].bounds.min_y = WideScalar(changed[0].bounds.min_y.0 ^ (1 << (8 * place)));
        assert_ne!(obstacle_hash(&changed.to_vec()), before);
        let mut changed = all;
        changed[1].bounds.max_x = WideScalar(changed[1].bounds.max_x.0 ^ (0x80 << (8 * place)));
        assert_ne!(obstacle_hash(&changed.to_vec()), before);
    }
    let reversed = vec![all[1], all[0]];
    let mut changed = reversed.clone();
    changed[1].bounds.min_x = WideScalar(changed[1].bounds.min_x.0 ^ 1);
    assert_ne!(obstacle_hash(&changed), obstacle_hash(&reversed));
}

#[test]
fn the_signature_of_no_obstacles_is_the_start_of_the_hash() {
    assert_eq!(obstacle_hash(&vec![]), 0xcbf2_9ce4_8422_2325);
}

/// The signature folds the bytes of each obstacle, room number first.
#[test]
fn the_signature_is_the_hash_of_the_bytes() {
    let all = [obstacle(-3, 1.25, -7.0), obstacle(5, 0.0, 2.0)];
    let mut bytes: Vec<u8> = Vec::new();
    for one in all {
        bytes.extend(one.room_number.0.to_le_bytes());
        for edge in [one.bounds.min_x, one.bounds.min_y, one.bounds.max_x, one.bounds.max_y] {
            bytes.extend(edge.0.to_le_bytes());
        }
    }
    let mut expected: u64 = 0xcbf2_9ce4_8422_2325;
    for byte in bytes {
        expected = (expected ^ u64::from(byte)).wrapping_mul(0x0000_0100_0000_01b3);
    }
    assert_eq!(obstacle_hash(&vec![all[1], all[0]]), expected);
}

#[test]
fn public_policy_omits_only_unrelated_secret_rooms_on_the_route_level() {
    let endpoints = [RoomNumber(1), RoomNumber(2)];
    assert!(include_public_obstacle(0, false, RoomNumber(3), 0, endpoints));
    assert!(!include_public_obstacle(0, true, RoomNumber(3), 0, endpoints));
    assert!(include_public_obstacle(0, true, RoomNumber(1), 0, endpoints));
    assert!(!include_public_obstacle(1, false, RoomNumber(3), 0, endpoints));
}

fn scalar(value: f32) -> Scalar {
    Scalar(value.to_bits())
}

fn room(number: i32, x: f32, level: i32, secret: bool) -> RoomCache {
    RoomCache {
        room_number: RoomNumber(number),
        title: String::new(),
        description: String::new(),
        color: String::new(),
        level,
        x: scalar(x),
        y: scalar(0.0),
        is_secret: secret,
        external_id: None,
        properties: Vec::new(),
        tags: Vec::new(),
        exits: Vec::new(),
    }
}

fn end(number: i32) -> ConnectionEndpoint {
    ConnectionEndpoint {
        room_number: RoomNumber(number),
        side: RoomSide::East,
        port_offset: scalar(0.5),
        port_mode: PortMode::AutoPinned,
    }
}

fn connection(id: u128, kind: ConnectionKind, a: i32, b: Option<i32>) -> Connection {
    Connection {
        id: ConnectionId(id),
        kind,
        endpoint_a: end(a),
        endpoint_b: b.map(end),
        routing: ConnectionRouting::Simple,
        segment_shape: SegmentShape::Direct,
        corner: CornerStyle::Sharp,
        route_points: Vec::new(),
        dash: ConnectionDash::Solid,
        color: String::new(),
        thickness: scalar(1.0),
    }
}

fn mapped_area(id: u128, rooms: Vec<RoomCache>, connections: Vec<Connection>) -> AreaCache {
    AreaCache {
        id: AreaId(id),
        name: "Test".to_string(),
        rev: 4,
        access: AreaAccess {
            is_owned: true,
            can_edit: true,
            can_copy: true,
            can_share: true,
            is_cleared_for_secrets: true,
        },
        rooms,
        connections,
        room_connections: Vec::new(),
        labels: Vec::new(),
        shapes: Vec::new(),
        properties: Vec::new(),
        next_room_number: RoomNumber(1),
    }
}

fn bounds(at: Point) -> RouteRect {
    let x = f64::from(f32::from_bits(at.x.0));
    let y = f64::from(f32::from_bits(at.y.0));
    RouteRect {
        min_x: WideScalar((x - 0.25).to_bits()),
        min_y: WideScalar((y - 0.25).to_bits()),
        max_x: WideScalar((x + 0.25).to_bits()),
        max_y: WideScalar((y + 0.25).to_bits()),
    }
}

#[test]
fn a_capture_holds_the_public_obstacles_in_order() {
    let area = mapped_area(
        1,
        vec![
            room(9, 4.0, 0, false),
            room(2, 1.0, 0, true),
            room(1, 0.0, 0, false),
            room(7, 2.0, 0, true),
            room(8, 3.0, 1, false),
        ],
        vec![connection(50, ConnectionKind::Internal, 1, Some(2))],
    );
    let captured = match capture(&area, ConnectionId(50), &bounds) {
        Ok(captured) => captured,
        Err(error) => panic!("{}", error),
    };
    let numbers: Vec<i32> = captured.request.obstacles.iter().map(|o| o.room_number.0).collect();
    assert_eq!(numbers, vec![1, 2, 9]);
    assert_eq!(captured.request.endpoint_a.room_number, RoomNumber(1));
    assert_eq!(captured.request.endpoint_b.room_center, Point { x: scalar(1.0), y: scalar(0.0) });
    assert_eq!(captured.snapshot.area_rev, 4);
    assert_eq!(captured.snapshot.obstacle_hash, obstacle_hash(&captured.request.obstacles));
}

#[test]
fn unrelated_secret_rooms_do_not_show_in_a_capture() {
    let links = || {
        vec![connection(50, ConnectionKind::Internal, 1, Some(2)), connection(51, ConnectionKind::Other(0), 1, None)]
    };
    let seen = |more: Vec<RoomCache>| {
        let mut rooms = more;
        rooms.push(room(2, 1.0, 0, true));
        rooms.push(room(1, 0.0, 0, false));
        let area = mapped_area(1, rooms, links());
        match capture(&area, ConnectionId(50), &bounds) {
            Ok(captured) => {
                (captured.snapshot, captured.request.obstacles, capture(&area, ConnectionId(51), &bounds).err())
            }
            Err(error) => panic!("{}", error),
        }
    };
    let without = seen(Vec::new());
    assert!(without == seen(vec![room(7, 2.0, 0, true)]));
    assert!(without == seen(vec![room(7, 5.0, 1, true), room(3, 0.5, 0, true)]));
    assert!(without != seen(vec![room(7, 2.0, 0, false)]));
}

#[test]
fn what_cannot_be_routed_says_why() {
    let area = mapped_area(
        1,
        vec![room(1, 0.0, 0, false), room(2, 1.0, 1, false)],
        vec![
            connection(50, ConnectionKind::Other(0), 1, Some(2)),
            connection(51, ConnectionKind::Internal, 1, None),
            connection(52, ConnectionKind::Internal, 1, Some(3)),
            connection(53, ConnectionKind::Internal, 3, Some(1)),
            connection(54, ConnectionKind::Internal, 1, Some(2)),
        ],
    );
    let why = |id: u128| capture(&area, ConnectionId(id), &bounds).err();
    assert_eq!(why(49), Some("Connection no longer exists"));
    assert_eq!(why(50), Some("Automatic routing is available only for internal same-level links"));
    assert_eq!(why(51), Some("Automatic routing requires two endpoints"));
    assert_eq!(why(52), Some("Connection endpoint room is missing"));
    assert_eq!(why(53), Some("Connection endpoint room is missing"));
    assert_eq!(why(54), Some("Automatic routing requires endpoints on the same level"));
}

// ===== Families =====

fn area(n: u128) -> AreaId {
    AreaId(n)
}

fn token(area_id: AreaId, token: &str) -> FamilyToken {
    FamilyToken {
        area_id,
        token: token.to_string(),
    }
}

/// A chain of three, where each is copied from the one before, and one alone.
fn chain_edges() -> Vec<Edge> {
    let (a, b, c, d) = (area(1), area(2), area(3), area(4));
    vec![(a, None), (b, Some(a)), (c, Some(b)), (d, None)]
}

#[test]
fn family_spans_the_whole_clone_chain() {
    let edges = chain_edges();
    let (a, b, c) = (area(1), area(2), area(3));
    assert_eq!(copy_family_in(&edges, &vec![], b), vec![a, b, c]);
    // Any member resolves to the same family.
    assert_eq!(copy_family_in(&edges, &vec![], a), vec![a, b, c]);
    assert_eq!(copy_family_in(&edges, &vec![], c), vec![a, b, c]);
}

#[test]
fn unrelated_area_is_its_own_family() {
    let edges = chain_edges();
    let d = area(4);
    assert_eq!(copy_family_in(&edges, &vec![], d), vec![d]);
}

#[test]
fn dangling_source_contributes_no_edge() {
    // The source of the first is not cached, so it has none.
    let (b, c) = (area(2), area(3));
    let edges: Vec<Edge> = vec![(b, None), (c, Some(b))];
    assert_eq!(copy_family_in(&edges, &vec![], b), vec![b, c]);
}

#[test]
fn family_token_groups_areas_without_provenance() {
    let (x, y) = (area(10), area(11));
    let no_edges: Vec<Edge> = vec![(x, None), (y, None)];
    let tokens = vec![token(x, "f_abc"), token(y, "f_abc")];
    assert_eq!(copy_family_in(&no_edges, &tokens, x), vec![x, y]);
    assert_eq!(copy_family_in(&no_edges, &tokens, y), vec![x, y]);
}

#[test]
fn distinct_tokens_do_not_merge() {
    let (x, y) = (area(10), area(11));
    let no_edges: Vec<Edge> = vec![(x, None), (y, None)];
    let tokens = vec![token(x, "f_abc"), token(y, "f_def")];
    assert_eq!(copy_family_in(&no_edges, &tokens, x), vec![x]);
}

#[test]
fn edges_and_tokens_union_into_one_family() {
    let (a, b, e) = (area(1), area(2), area(5));
    let edges: Vec<Edge> = vec![(a, None), (b, Some(a)), (e, None)];
    let tokens = vec![token(b, "f_x"), token(e, "f_x")];
    assert_eq!(copy_family_in(&edges, &tokens, e), vec![a, b, e]);
}

#[test]
fn family_members_flags_only_multi_member_families() {
    let edges = chain_edges();
    let members = family_members_in(&edges, &vec![]);
    // The chain is a family; the last is alone.
    assert!(members.contains(&area(1)));
    assert!(members.contains(&area(2)));
    assert!(members.contains(&area(3)));
    assert!(!members.contains(&area(4)));
}

#[test]
fn an_area_that_is_not_listed_is_its_own_family() {
    assert_eq!(copy_family_in(&chain_edges(), &vec![], area(77)), vec![area(77)]);
}

#[test]
fn an_area_is_copied_only_from_what_is_cached() {
    let atlas = AtlasCache {
        areas: vec![mapped_area(1, vec![], vec![]), mapped_area(2, vec![], vec![])],
    };
    let edges = copied_from_edges(&atlas, &vec![Some(area(9)), Some(area(1))]);
    assert_eq!(edges, vec![(area(1), None), (area(2), Some(area(1)))]);
}

#[test]
fn the_index_holds_the_areas_with_a_token() {
    let index = FamilyIndex::build(&vec![
        ListedArea { id: area(1), family_token: None },
        ListedArea { id: area(2), family_token: Some("f_x".to_string()) },
    ]);
    let held: Vec<(AreaId, &str)> = index.tokens.iter().map(|t| (t.area_id, t.token.as_str())).collect();
    assert_eq!(held, vec![(area(2), "f_x")]);
}

#[test]
fn the_last_token_of_an_area_counts() {
    let listed = |n, token: Option<&str>| ListedArea { id: area(n), family_token: token.map(str::to_string) };
    let index = FamilyIndex::build(&vec![
        listed(1, Some("f")),
        listed(2, Some("f")),
        listed(1, Some("g")),
        listed(2, None),
    ]);
    let held: Vec<(AreaId, &str)> = index.tokens.iter().map(|t| (t.area_id, t.token.as_str())).collect();
    assert_eq!(held, vec![(area(2), "f"), (area(1), "g")]);
}

#[test]
fn an_area_of_unknown_source_was_not_copied() {
    let atlas = AtlasCache {
        areas: vec![mapped_area(1, vec![], vec![]), mapped_area(2, vec![], vec![])],
    };
    assert_eq!(copied_from_edges(&atlas, &vec![]), vec![(area(1), None), (area(2), None)]);
}
