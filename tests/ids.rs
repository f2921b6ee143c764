use i1::{
    insert_uuid, lookup_uuid, new_universe, patch_file_name, patch_uuid_from_file_name, resolve_luid,
    AsBase64Url, CommitRefError, Context, FileNameError, FromBase64Url, IdError, TotalState, Version,
};
use roaring::RoaringTreemap;

#[test]
fn base64url_of_known_uuids() {
    assert_eq!(0u128.as_base64url(), "AAAAAAAAAAAAAAAAAAAAAA");
    assert_eq!(u128::MAX.as_base64url(), "_____________________w");
    let u: u128 = 0x0001_0203_0405_0607_0809_0a0b_0c0d_0e0f;
    assert_eq!(u.as_base64url(), "AAECAwQFBgcICQoLDA0ODw");
    assert_eq!(<u128 as FromBase64Url>::from_base64url("AAECAwQFBgcICQoLDA0ODw"), Ok(u));
}

#[test]
fn base64url_round_trip() {
    for u in [1u128, 0x0192_3456_789a_7bcd_8ef0_1234_5678_9abc, u128::MAX - 7] {
        let text = u.as_base64url();
        assert_eq!(text.len(), 22);
        assert_eq!(<u128 as FromBase64Url>::from_base64url(&text), Ok(u));
    }
}

#[test]
fn base64url_decoding_errors() {
    assert_eq!(<u128 as FromBase64Url>::from_base64url("!!!!"), Err(IdError::InvalidEncoding));
    assert_eq!(<u128 as FromBase64Url>::from_base64url("AAAA"), Err(IdError::InvalidLength));
    assert_eq!(<u128 as FromBase64Url>::from_base64url(""), Err(IdError::InvalidLength));
    assert_eq!(<u128 as FromBase64Url>::from_base64url("AAAAAAAAAAAAAAAAAAAAAA=="), Err(IdError::InvalidEncoding));
}

#[test]
fn uuid_bytes_are_big_endian() {
    let u: u128 = 0x0102_0304_0506_0708_090a_0b0c_0d0e_0f10;
    let bytes = i1::id::uuid_to_bytes(u);
    assert_eq!(bytes, (1u8..=16).collect::<Vec<u8>>());
    assert_eq!(i1::id::uuid_from_bytes(&bytes), Some(u));
    assert_eq!(i1::id::uuid_from_bytes(&bytes[..15]), None);
}

#[test]
fn patch_file_names() {
    assert_eq!(patch_file_name(0), "patch_AAAAAAAAAAAAAAAAAAAAAA");
    assert_eq!(patch_uuid_from_file_name("patch_AAECAwQFBgcICQoLDA0ODw"), Ok(0x0001_0203_0405_0607_0809_0a0b_0c0d_0e0f));
    assert_eq!(patch_uuid_from_file_name("patc"), Err(FileNameError::MissingPrefix));
    assert_eq!(patch_uuid_from_file_name("batch_AAAA"), Err(FileNameError::MissingPrefix));
    assert_eq!(patch_uuid_from_file_name("patch_AAAA"), Err(FileNameError::InvalidUuid(IdError::InvalidLength)));
    assert_eq!(patch_uuid_from_file_name("patch_*"), Err(FileNameError::InvalidUuid(IdError::InvalidEncoding)));
}

#[test]
fn universe_is_append_only() {
    let mut u = new_universe();
    assert_eq!(insert_uuid(&mut u, 50), 0);
    assert_eq!(insert_uuid(&mut u, 7), 1);
    assert_eq!(insert_uuid(&mut u, 50), 0);
    assert_eq!(insert_uuid(&mut u, 9), 2);
    assert_eq!(insert_uuid(&mut u, 7), 1);
    assert_eq!(lookup_uuid(&u, &9), Some(2));
    assert_eq!(lookup_uuid(&u, &8), None);
    assert_eq!(resolve_luid(&u, 1), Some(7));
    assert_eq!(resolve_luid(&u, 3), None);
}

#[test]
fn added_entities_keep_their_luids() {
    let mut state = TotalState::new();
    let a = state.add();
    let la = state.uuid_to_luid(&a).unwrap();
    let b = state.add();
    state.commit();
    assert_eq!(state.uuid_to_luid(&a), Some(la));
    assert_eq!(state.luid_to_uuid(la), Some(a));
    assert_ne!(state.uuid_to_luid(&b), Some(la));
    assert!(a != b);
    assert_eq!((a >> 76) & 0xf, 7);
}

#[test]
fn commit_references() {
    let mut state = TotalState::new();
    state.add();
    let target = state.commit().1.target_commit;
    assert_eq!(state.parse_commit_ref(&target.as_base64url()), Ok(target));
    let entity = state.add();
    assert_eq!(state.parse_commit_ref(&entity.as_base64url()), Err(CommitRefError::UnknownCommit));
    assert_eq!(state.parse_commit_ref("AAAA"), Err(CommitRefError::InvalidUuid(IdError::InvalidLength)));
    assert_eq!(state.parse_commit_ref("%%"), Err(CommitRefError::InvalidUuid(IdError::InvalidEncoding)));
}

#[test]
fn context_lookup_follows_paths() {
    let leaf = |l| Context::Leaf(l);
    let ctx = Context::Node(vec![
        ("a".to_string(), Context::Node(vec![("b".to_string(), leaf(3)), ("c".to_string(), leaf(4))])),
        ("d".to_string(), leaf(5)),
    ]);
    let path = |p: &[&str]| p.iter().map(|s| s.to_string()).collect::<Vec<String>>();
    assert_eq!(ctx.get(&path(&["a", "b"])), Some(3));
    assert_eq!(ctx.get(&path(&["a", "c"])), Some(4));
    assert_eq!(ctx.get(&path(&["d"])), Some(5));
    assert_eq!(ctx.get(&path(&["a"])), None);
    assert_eq!(ctx.get(&path(&["d", "e"])), None);
    assert_eq!(ctx.get(&path(&["x"])), None);
    assert_eq!(ctx.get(&path(&[])), None);
    assert_eq!(leaf(9).get(&path(&[])), Some(9));
    assert!(matches!(Context::default(), Context::Node(children) if children.is_empty()));
}

#[test]
fn version_coordinates() {
    let members: RoaringTreemap = [2u64, 5, 9].into_iter().collect();
    let mut v = Version::from_members(members);
    assert_eq!(v.luid_to_vlid(5), Some(1));
    assert_eq!(v.luid_to_vlid(4), None);
    assert_eq!(v.vlid_to_luid(2), Some(9));
    assert_eq!(v.vlid_to_luid(3), None);
    v.s0 = [0u64, 2].into_iter().collect();
    v.s0i = vec![[1u64].into_iter().collect(), [0u64, 2].into_iter().collect()];
    assert_eq!(v.vlid_to_slids0(2), Some(1));
    assert_eq!(v.slids0_to_vlid(0), Some(0));
    assert_eq!(v.slids0_of_vlid(2), Some(1));
    assert_eq!(v.slids0_of_vlid(1), Some(0));
    assert_eq!(v.slids0_of_vlid(7), None);
    assert_eq!(v.slid_to_vlid(1, 1), Some(2));
    assert_eq!(v.slid_to_vlid(5, 0), None);
    assert_eq!(v.vlid_to_slid(1, 2), Some(1));
    assert_eq!(v.vlid_to_slids0_and_slid(2), Some((1, 1)));
    assert_eq!(v.luid_to_slids0_and_slid(9), Some((1, 1)));
    assert_eq!(v.luid_to_slids0(2), Some(0));
    let mut u = new_universe();
    insert_uuid(&mut u, 100);
    insert_uuid(&mut u, 101);
    insert_uuid(&mut u, 102);
    assert_eq!(v.uuid_to_slids0(&u, &102), Some(0));
    assert_eq!(v.uuid_to_slids0_and_slid(&u, &102), None);
    assert_eq!(v.uuid_to_slids0(&u, &100), None);
    assert_eq!(v.uuid_to_slids0(&u, &103), None);
}

#[test]
fn error_messages() {
    assert_eq!(IdError::InvalidLength.message(), "a UUID must be sixteen bytes");
    assert_eq!(i1::StateError::NotFound.message(), "not found");
}
