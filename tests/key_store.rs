use parsec_core::key_info::{ApplicationName, KeyTriple, OnDiskKeyIDManager};
use parsec_core::mapping::{parse_decimal_u8, MappingFile};
use parsec_core::requests::ProviderID;
use parsec_core::trusted_service::ProviderBuilder;

fn new_key_triple(key_name: String) -> KeyTriple {
    KeyTriple::new(
        ApplicationName::new("Testing Application 😎".to_string()),
        ProviderID::MbedCrypto,
        key_name,
    )
}

fn triple(app: &str, provider: ProviderID, key: &str) -> KeyTriple {
    KeyTriple::new(ApplicationName::new(app.to_string()), provider, key.to_string())
}

fn new_manager() -> OnDiskKeyIDManager {
    OnDiskKeyIDManager::empty("mappings".to_string())
}

#[test]
fn insert_get_key_id() {
    let mut manager = new_manager();
    let key_triple = new_key_triple("insert_get_key_id".to_string());
    let key_id = vec![0x11, 0x22, 0x33];

    assert!(manager.get(&key_triple).is_none());
    assert!(manager.insert(key_triple.duplicate(), key_id.clone()).is_none());
    let stored_key_id = manager.get(&key_triple).expect("Failed to get key id").clone();
    assert_eq!(stored_key_id, key_id);
    assert!(manager.remove(&key_triple).is_some());
}

#[test]
fn insert_remove_key() {
    let mut manager = new_manager();
    let key_triple = new_key_triple("insert_remove_key".to_string());
    let key_id = vec![0x11, 0x22, 0x33];
    manager.insert(key_triple.duplicate(), key_id.clone());
    assert!(manager.remove(&key_triple).is_some());
    assert!(manager.get(&key_triple).is_none());
}

#[test]
fn remove_unexisting_key() {
    let mut manager = new_manager();
    let key_triple = new_key_triple("remove_unexisting_key".to_string());
    assert_eq!(manager.remove(&key_triple), None);
}

#[test]
fn contains_after_insert_and_remove() {
    let mut manager = new_manager();
    let key_triple = new_key_triple("exists".to_string());
    let key_id = vec![0x11, 0x22, 0x33];
    assert!(!manager.contains(&key_triple));
    manager.insert(key_triple.duplicate(), key_id.clone());
    assert!(manager.contains(&key_triple));
    manager.remove(&key_triple);
    assert!(!manager.contains(&key_triple));
}

#[test]
fn insert_overwrites() {
    let mut manager = new_manager();
    let key_triple = new_key_triple("insert_overwrites".to_string());
    let key_id_1 = vec![0x11, 0x22, 0x33];
    let key_id_2 = vec![0xaa, 0xbb, 0xcc];
    manager.insert(key_triple.duplicate(), key_id_1.clone());
    assert_eq!(manager.insert(key_triple.duplicate(), key_id_2.clone()), Some(key_id_1));
    let stored_key_id = manager.get(&key_triple).expect("Failed to get key id").clone();
    assert_eq!(stored_key_id, key_id_2);
    assert!(manager.remove(&key_triple).is_some());
}

#[test]
fn big_names_ascii() {
    let mut manager = new_manager();
    let big_app_name_ascii = ApplicationName::new("  Lorem ipsum dolor sit amet, ei suas viris sea, deleniti repudiare te qui. Natum paulo decore ut nec, ne propriae offendit adipisci has. Eius clita legere mel at, ei vis minimum tincidunt.".to_string());
    let big_key_name_ascii = "  Lorem ipsum dolor sit amet, ei suas viris sea, deleniti repudiare te qui. Natum paulo decore ut nec, ne propriae offendit adipisci has. Eius clita legere mel at, ei vis minimum tincidunt.".to_string();
    let key_triple = KeyTriple::new(big_app_name_ascii, ProviderID::Core, big_key_name_ascii);
    let key_id = vec![0x11, 0x22, 0x33];
    let file = MappingFile::of(&key_triple, &key_id);
    assert_eq!(file.triple().expect("decodes").key_name, key_triple.key_name);
    manager.insert(key_triple.duplicate(), key_id.clone());
    assert_eq!(manager.remove(&key_triple).unwrap(), key_id);
}

#[test]
fn big_names_emoticons() {
    let mut manager = new_manager();
    let big_app_name_emoticons = ApplicationName::new("😀😁😂😃😄😅😆😇😈😉😊😋😌😍😎😏😐😑😒😓😔😕😖😗😘😙😚😛😜😝😞😟😠😡😢😣😤😥😦😧😨😩😪😫😬😭😮".to_string());
    let big_key_name_emoticons = "😀😁😂😃😄😅😆😇😈😉😊😋😌😍😎😏😐😑😒😓😔😕😖😗😘😙😚😛😜😝😞😟😠😡😢😣😤😥😦😧😨😩😪😫😬😭😮".to_string();
    let key_triple = KeyTriple::new(big_app_name_emoticons, ProviderID::MbedCrypto, big_key_name_emoticons);
    let key_id = vec![0x11, 0x22, 0x33];
    manager.insert(key_triple.duplicate(), key_id.clone());
    assert_eq!(manager.remove(&key_triple).unwrap(), key_id);
}

#[test]
fn create_and_load() {
    let key_triple1 = triple("😀 Application One 😀", ProviderID::Core, "😀 Key One 😀");
    let key_id1 = vec![0x11, 0x22, 0x33];
    let key_triple2 = triple("😇 Application Two 😇", ProviderID::MbedCrypto, "😇 Key Two 😇");
    let key_id2 = vec![0x12, 0x22, 0x32];
    let key_triple3 = triple("😈 Application Three 😈", ProviderID::Core, "😈 Key Three 😈");
    let key_id3 = vec![0x13, 0x23, 0x33];
    let files = {
        let mut manager = new_manager();
        manager.insert(key_triple1.duplicate(), key_id1.clone());
        manager.insert(key_triple2.duplicate(), key_id2.clone());
        manager.insert(key_triple3.duplicate(), key_id3.clone());
        vec![
            MappingFile::of(&key_triple3, &key_id3),
            MappingFile::of(&key_triple1, &key_id1),
            MappingFile::of(&key_triple2, &key_id2),
        ]
    };
    let mut manager = OnDiskKeyIDManager::new("mappings".to_string(), &files);
    assert_eq!(manager.remove(&key_triple1).unwrap(), key_id1);
    assert_eq!(manager.remove(&key_triple2).unwrap(), key_id2);
    assert_eq!(manager.remove(&key_triple3).unwrap(), key_id3);
}

#[test]
fn mapping_file_names() {
    let t = triple("alice", ProviderID::MbedCrypto, "k/1");
    let file = MappingFile::of(&t, &vec![7]);
    assert_eq!(file.app_dir, "YWxpY2U=");
    assert_eq!(file.provider_dir, "1");
    assert_eq!(file.key_file, "ay8x");
    assert_eq!(file.key_id, vec![7]);
    let slash = MappingFile::of(&triple("??>", ProviderID::Core, "x"), &vec![]);
    assert_eq!(slash.app_dir, "Pz8-");
}

#[test]
fn undecodable_files_are_skipped() {
    let good = MappingFile::of(&triple("alice", ProviderID::MbedCrypto, "k"), &vec![1]);
    let bad_name = MappingFile {
        app_dir: "***".to_string(),
        provider_dir: "1".to_string(),
        key_file: "aw==".to_string(),
        key_id: vec![2],
    };
    let bad_provider = MappingFile {
        app_dir: "YWxpY2U=".to_string(),
        provider_dir: "9".to_string(),
        key_file: "aw==".to_string(),
        key_id: vec![3],
    };
    let not_utf8 = MappingFile {
        app_dir: "_w==".to_string(),
        provider_dir: "1".to_string(),
        key_file: "aw==".to_string(),
        key_id: vec![4],
    };
    assert!(bad_name.triple().is_none());
    assert!(bad_provider.triple().is_none());
    assert!(not_utf8.triple().is_none());
    let manager = OnDiskKeyIDManager::new(
        "m".to_string(),
        &vec![good, bad_name, bad_provider, not_utf8],
    );
    assert_eq!(manager.get(&triple("alice", ProviderID::MbedCrypto, "k")), Some(&vec![1]));
    assert_eq!(manager.get_all(ProviderID::MbedCrypto).len(), 1);
}

#[test]
fn persistence_restart() {
    let t = triple("alice", ProviderID::MbedCrypto, "k");
    let files = vec![MappingFile::of(&t, &vec![0x2a])];
    let manager = OnDiskKeyIDManager::new("m".to_string(), &files);
    assert!(manager.contains(&triple("alice", ProviderID::MbedCrypto, "k")));
}

#[test]
fn isolation_between_applications() {
    let mut manager = new_manager();
    manager.insert(triple("alice", ProviderID::MbedCrypto, "k"), vec![1]);
    assert!(!manager.contains(&triple("bob", ProviderID::MbedCrypto, "k")));
    assert!(manager.get(&triple("bob", ProviderID::MbedCrypto, "k")).is_none());
    assert!(!manager.contains(&triple("alice", ProviderID::Tpm, "k")));
}

#[test]
fn get_all_filters_by_provider() {
    let mut manager = new_manager();
    manager.insert(triple("a", ProviderID::MbedCrypto, "k1"), vec![1]);
    manager.insert(triple("a", ProviderID::Tpm, "k2"), vec![2]);
    manager.insert(triple("b", ProviderID::MbedCrypto, "k3"), vec![3]);
    let all = manager.get_all(ProviderID::MbedCrypto);
    assert_eq!(all.len(), 2);
    assert!(all.iter().all(|t| t.belongs_to_provider(ProviderID::MbedCrypto)));
    assert_eq!(manager.get_all(ProviderID::Pkcs11).len(), 0);
}

#[test]
fn decimal_parsing() {
    assert_eq!(parse_decimal_u8("4"), Some(4));
    assert_eq!(parse_decimal_u8("255"), Some(255));
    assert_eq!(parse_decimal_u8("007"), Some(7));
    assert_eq!(parse_decimal_u8("256"), None);
    assert_eq!(parse_decimal_u8(""), None);
    assert_eq!(parse_decimal_u8("1a"), None);
    assert_eq!(parse_decimal_u8("+7"), Some(7));
    assert_eq!(parse_decimal_u8("+"), None);
    assert_eq!(parse_decimal_u8("-1"), None);
}

#[test]
fn trusted_service_start_prunes_and_resumes_numbering() {
    let mut store = new_manager();
    store.insert(triple("a", ProviderID::TrustedService, "good"), vec![7, 0, 0, 0]);
    store.insert(triple("a", ProviderID::TrustedService, "high"), vec![0, 1, 0, 0]);
    store.insert(triple("a", ProviderID::TrustedService, "bad"), vec![1, 2]);
    store.insert(triple("a", ProviderID::MbedCrypto, "other"), vec![1, 2]);
    let mut provider = ProviderBuilder::new().with_key_info_store(store).build().unwrap();
    let kept = provider.key_info_store();
    assert!(kept.contains(&triple("a", ProviderID::TrustedService, "good")));
    assert!(!kept.contains(&triple("a", ProviderID::TrustedService, "bad")));
    assert!(kept.contains(&triple("a", ProviderID::MbedCrypto, "other")));
    assert_eq!(provider.next_key_id(), Some(257));
    assert_eq!(provider.next_key_id(), Some(258));
}

#[test]
fn trusted_service_needs_a_store() {
    assert!(ProviderBuilder::new().build().is_err());
    let mut provider = ProviderBuilder::new().with_key_info_store(new_manager()).build().unwrap();
    assert_eq!(provider.next_key_id(), Some(2));
}

#[test]
fn trusted_service_describes_itself() {
    let provider = ProviderBuilder::new().with_key_info_store(new_manager()).build().unwrap();
    let (info, ops) = provider.describe().unwrap();
    assert_eq!(info.uuid, "71129441-508a-4da6-b6e8-7b98a777e4c0");
    assert_eq!(info.id, ProviderID::TrustedService);
    assert_eq!(info.vendor, "Arm");
    assert_eq!(ops.len(), 8);
    let (named, _) = parsec_core::trusted_service::Provider::description_with_uuid("x".to_string());
    assert_eq!(named.uuid, "x");
}

#[test]
fn trusted_service_lists_keys_and_clients() {
    let mut store = new_manager();
    store.insert(triple("alice", ProviderID::TrustedService, "k1"), vec![2, 0, 0, 0]);
    store.insert(triple("alice", ProviderID::MbedCrypto, "k2"), vec![3]);
    store.insert(triple("bob", ProviderID::TrustedService, "k3"), vec![4, 0, 0, 0]);
    let provider = ProviderBuilder::new().with_key_info_store(store).build().unwrap();
    let keys = provider.list_keys(&ApplicationName::new("alice".to_string()));
    assert_eq!(keys, vec!["k1".to_string()]);
    let clients = provider.list_clients();
    let mut names: Vec<String> = clients.iter().map(|c| c.get_name().clone()).collect();
    names.sort();
    assert_eq!(names, vec!["alice".to_string(), "bob".to_string()]);
}

#[test]
fn get_all_lists_each_triple_once() {
    let mut manager = new_manager();
    manager.insert(triple("a", ProviderID::Tpm, "k"), vec![1]);
    manager.insert(triple("a", ProviderID::Tpm, "k"), vec![2]);
    manager.insert(triple("b", ProviderID::Tpm, "k"), vec![3]);
    let all = manager.get_all(ProviderID::Tpm);
    assert_eq!(all.len(), 2);
    assert!(!all[0].same_as(&all[1]));
}

#[test]
fn mapping_names_use_url_safe_alphabet() {
    let file = MappingFile::of(&triple("a/b?>", ProviderID::Pkcs11, "?/?"), &vec![]);
    assert!(!file.app_dir.contains('/'));
    assert!(!file.key_file.contains('/'));
    assert_eq!(file.provider_dir, "2");
    let plus = MappingFile { provider_dir: "+2".to_string(), ..file.clone() };
    assert_eq!(plus.triple().unwrap().provider_id, ProviderID::Pkcs11);
}
