use rsa::pkcs8::der::pem::encode_string;
use rsa::pkcs8::der::Encode;
use rsa::pkcs8::pkcs5::pbes2::Kdf;
use rsa::pkcs8::pkcs5::pbes2::Parameters;
use rsa::pkcs8::pkcs5::pbes2::ScryptParams;
use rsa::pkcs8::EncryptedPrivateKeyInfo;
use rsa::pkcs8::LineEnding;
use rust_key_box::errs::KeyBoxErr;
use rust_key_box::key::display_keys;
use rust_key_box::key::Key;
use rust_key_box::key_box::KeyBox;
use rust_key_box::main_key::MainKey;

/// A container sealed under the password `correct-horse`, as DER.
const VAULT_DER: [u8; 1336] = [
    48, 130, 5, 52, 48, 94, 6, 9, 42, 134, 72, 134, 247, 13, 1, 5, 13, 48, 81, 48,
    48, 6, 9, 42, 134, 72, 134, 247, 13, 1, 5, 12, 48, 35, 4, 16, 7, 7, 7, 7,
    7, 7, 7, 7, 7, 7, 7, 7, 7, 7, 7, 7, 2, 1, 16, 48, 12, 6, 8, 42,
    134, 72, 134, 247, 13, 2, 9, 5, 0, 48, 29, 6, 9, 96, 134, 72, 1, 101, 3, 4,
    1, 42, 4, 16, 9, 9, 9, 9, 9, 9, 9, 9, 9, 9, 9, 9, 9, 9, 9, 9,
    4, 130, 4, 208, 130, 175, 61, 124, 91, 35, 246, 19, 215, 73, 253, 88, 32, 11, 124, 0,
    213, 85, 242, 193, 123, 14, 103, 235, 99, 222, 114, 28, 38, 215, 53, 202, 114, 219, 216, 132,
    254, 249, 239, 146, 156, 43, 156, 9, 242, 53, 192, 165, 143, 167, 8, 170, 42, 144, 225, 198,
    107, 248, 2, 164, 113, 207, 183, 50, 95, 117, 255, 162, 103, 68, 46, 233, 4, 254, 78, 79,
    127, 23, 135, 205, 148, 191, 69, 112, 204, 8, 169, 33, 203, 31, 83, 227, 111, 7, 185, 74,
    171, 180, 219, 114, 96, 231, 211, 129, 198, 62, 159, 69, 50, 145, 230, 139, 109, 208, 144, 153,
    65, 136, 238, 42, 228, 130, 194, 166, 147, 187, 30, 4, 109, 52, 112, 107, 172, 102, 164, 30,
    173, 109, 40, 176, 243, 213, 130, 189, 160, 112, 145, 74, 246, 63, 72, 78, 90, 176, 226, 1,
    148, 88, 146, 18, 73, 184, 181, 210, 112, 171, 235, 167, 30, 143, 96, 78, 36, 22, 248, 133,
    229, 12, 30, 184, 187, 37, 28, 17, 153, 229, 115, 184, 69, 54, 222, 231, 164, 172, 158, 75,
    12, 65, 251, 244, 200, 43, 27, 151, 7, 92, 168, 72, 47, 221, 216, 153, 209, 59, 60, 15,
    245, 72, 179, 117, 104, 84, 104, 11, 16, 236, 222, 214, 74, 224, 178, 185, 138, 31, 200, 111,
    190, 28, 151, 235, 228, 51, 179, 58, 132, 215, 13, 27, 191, 128, 212, 63, 104, 63, 168, 43,
    144, 166, 206, 105, 122, 164, 84, 27, 38, 13, 215, 170, 40, 27, 35, 185, 111, 191, 116, 31,
    40, 71, 127, 153, 166, 113, 255, 166, 40, 169, 113, 159, 190, 146, 77, 102, 87, 29, 14, 237,
    129, 238, 184, 66, 206, 73, 105, 2, 80, 243, 39, 125, 25, 88, 32, 2, 66, 214, 246, 30,
    150, 32, 114, 20, 111, 155, 82, 213, 67, 163, 180, 144, 232, 251, 92, 150, 16, 247, 117, 70,
    109, 36, 237, 133, 118, 7, 220, 158, 24, 61, 20, 168, 142, 141, 136, 68, 97, 96, 54, 178,
    83, 174, 114, 203, 85, 23, 120, 77, 152, 108, 69, 152, 167, 242, 12, 38, 109, 90, 226, 162,
    122, 180, 45, 109, 243, 167, 2, 213, 141, 3, 50, 235, 37, 35, 228, 207, 57, 127, 208, 33,
    247, 202, 154, 101, 190, 121, 189, 62, 177, 51, 69, 177, 31, 215, 207, 26, 59, 33, 13, 114,
    53, 41, 145, 159, 154, 109, 229, 203, 101, 56, 45, 218, 231, 247, 78, 115, 219, 73, 224, 84,
    56, 100, 56, 197, 195, 87, 146, 97, 168, 222, 82, 68, 161, 139, 178, 127, 236, 108, 66, 221,
    30, 71, 227, 242, 74, 150, 246, 101, 250, 20, 222, 150, 43, 239, 55, 224, 182, 121, 81, 83,
    91, 150, 22, 181, 163, 182, 105, 86, 253, 115, 233, 59, 19, 246, 5, 228, 143, 59, 164, 189,
    147, 91, 246, 207, 212, 165, 191, 22, 197, 254, 191, 149, 90, 36, 192, 171, 80, 16, 252, 5,
    230, 157, 85, 106, 250, 63, 92, 34, 13, 169, 216, 183, 250, 6, 235, 119, 132, 242, 105, 57,
    31, 234, 152, 120, 33, 20, 19, 252, 185, 70, 18, 205, 124, 206, 215, 133, 155, 163, 79, 247,
    196, 58, 166, 27, 226, 153, 119, 218, 237, 111, 144, 95, 228, 17, 167, 173, 87, 193, 0, 151,
    137, 205, 132, 186, 59, 230, 91, 219, 101, 213, 254, 188, 85, 127, 131, 61, 103, 159, 143, 57,
    191, 117, 222, 206, 60, 45, 248, 167, 221, 171, 22, 60, 152, 24, 30, 200, 245, 63, 225, 89,
    12, 228, 75, 151, 162, 223, 38, 242, 137, 28, 11, 224, 195, 255, 40, 109, 239, 103, 248, 21,
    26, 32, 136, 11, 238, 245, 147, 132, 216, 158, 208, 103, 15, 116, 188, 114, 204, 205, 141, 111,
    215, 21, 54, 209, 99, 106, 137, 222, 220, 225, 88, 175, 148, 245, 158, 222, 167, 129, 190, 195,
    113, 30, 240, 40, 107, 72, 154, 153, 34, 66, 50, 102, 148, 74, 26, 55, 208, 131, 84, 57,
    31, 101, 1, 128, 87, 33, 60, 100, 221, 166, 143, 94, 194, 226, 8, 208, 233, 78, 207, 36,
    209, 152, 151, 203, 220, 46, 113, 115, 87, 43, 229, 28, 90, 88, 45, 99, 20, 223, 45, 53,
    152, 246, 110, 76, 255, 235, 89, 64, 217, 222, 214, 254, 101, 66, 164, 235, 143, 161, 159, 73,
    158, 46, 164, 111, 160, 165, 109, 52, 174, 26, 77, 187, 230, 42, 189, 157, 56, 95, 73, 116,
    255, 146, 43, 122, 83, 255, 201, 126, 115, 172, 90, 249, 255, 145, 250, 119, 30, 10, 85, 62,
    107, 127, 54, 148, 141, 202, 31, 55, 70, 229, 81, 237, 36, 168, 150, 99, 196, 217, 0, 197,
    200, 141, 31, 77, 1, 173, 62, 62, 223, 253, 14, 225, 81, 145, 128, 138, 138, 184, 223, 5,
    103, 9, 212, 201, 63, 123, 66, 43, 181, 116, 134, 22, 101, 0, 158, 237, 59, 108, 144, 105,
    16, 29, 233, 247, 145, 131, 43, 191, 65, 229, 207, 33, 22, 94, 146, 231, 176, 211, 199, 60,
    239, 147, 249, 204, 55, 144, 95, 18, 59, 13, 252, 173, 222, 130, 63, 24, 83, 26, 199, 28,
    58, 218, 53, 15, 233, 139, 162, 157, 32, 87, 234, 141, 239, 161, 240, 110, 39, 129, 37, 19,
    51, 139, 92, 188, 97, 216, 203, 201, 142, 161, 148, 143, 4, 146, 173, 5, 219, 7, 172, 99,
    85, 222, 74, 238, 132, 231, 203, 182, 118, 161, 141, 88, 223, 64, 222, 186, 121, 83, 214, 111,
    252, 98, 127, 116, 25, 40, 52, 143, 38, 11, 80, 115, 221, 49, 151, 38, 48, 87, 147, 86,
    227, 82, 227, 248, 214, 175, 241, 124, 187, 223, 22, 159, 130, 65, 131, 144, 99, 103, 82, 135,
    4, 40, 181, 246, 37, 57, 159, 191, 102, 99, 142, 145, 220, 28, 192, 243, 10, 210, 252, 132,
    22, 219, 97, 60, 102, 157, 16, 19, 31, 158, 10, 77, 67, 108, 150, 197, 7, 86, 123, 113,
    140, 145, 62, 231, 67, 16, 74, 99, 100, 241, 243, 21, 58, 197, 91, 100, 230, 124, 144, 141,
    245, 135, 151, 252, 248, 80, 217, 203, 192, 251, 33, 126, 206, 194, 241, 154, 94, 113, 224, 109,
    218, 219, 136, 112, 0, 229, 75, 157, 140, 201, 124, 192, 83, 170, 225, 81, 250, 15, 192, 24,
    96, 254, 192, 100, 39, 30, 60, 88, 242, 242, 93, 252, 21, 55, 208, 110, 130, 62, 93, 59,
    105, 9, 99, 173, 8, 168, 232, 170, 8, 213, 46, 102, 247, 75, 231, 128, 6, 146, 22, 0,
    88, 123, 164, 223, 84, 199, 107, 222, 214, 53, 80, 202, 101, 198, 71, 163, 232, 215, 6, 226,
    221, 11, 122, 140, 241, 34, 18, 1, 20, 223, 109, 29, 120, 211, 124, 12, 183, 71, 45, 127,
    209, 41, 45, 42, 225, 86, 251, 79, 167, 227, 172, 193, 179, 47, 58, 166, 231, 242, 16, 15,
    182, 1, 187, 156, 116, 57, 87, 136, 154, 156, 44, 186, 179, 189, 138, 64, 216, 11, 206, 134,
    34, 81, 60, 239, 63, 144, 217, 23, 173, 145, 244, 61, 219, 201, 108, 15,
];

fn vault_container() -> String {
    encode_string("ENCRYPTED PRIVATE KEY", LineEnding::LF, &VAULT_DER).unwrap()
}

fn open_box(keys: Vec<Key>) -> KeyBox {
    match KeyBox::load_with_password(vault_container(), String::from("correct-horse"), keys) {
        Ok(key_box) => key_box,
        Err(e) => panic!("no vault: {:?}", e),
    }
}

fn text(s: &str) -> String {
    String::from(s)
}

fn stored(id: u32, url: &str, user: &str, notes: &str) -> Key {
    Key {
        id,
        url: text(url),
        user: text(user),
        password: text("c2VjcmV0"),
        notes: text(notes),
        last_updated: 0,
    }
}

fn ids(key_box: &KeyBox) -> Vec<u32> {
    key_box.list_all_keys().iter().map(|key| key.id).collect()
}

fn add(key_box: &mut KeyBox, url: &str, user: &str, notes: &str, secret: &str) -> Key {
    let key = key_box.create_new_key(text(url), text(user), text(notes), secret).unwrap();
    assert_eq!(key_box.save_key(key.clone(), true), Ok(()));
    key
}

#[test]
fn end_to_end_scenario() {
    let main_key = match MainKey::generate() {
        Ok(main_key) => main_key,
        Err(e) => panic!("no key: {:?}", e),
    };
    assert_eq!(main_key.watermark(), 0);
    assert_eq!(main_key.max_secret_len(), 245);
    assert_eq!(
        main_key.confirm_container(vault_container(), "correct-horse"),
        Err(KeyBoxErr::KeyGenerationError)
    );
    let mut key_box = KeyBox::load_keys(main_key, Vec::new()).unwrap();
    assert!(key_box.list_all_keys().is_empty());
    let mut disk: Vec<(String, Key)> = Vec::new();

    let first = key_box.create_new_key(text("example.com"), text("alice"), text(""), "p@ss1").unwrap();
    assert_eq!(first.id, 1);
    assert_eq!(first.url, "example.com");
    assert_eq!(first.user, "alice");
    assert_eq!(first.notes, "");
    assert_ne!(first.password, "p@ss1");
    disk.push((rust_key_box::key::key_file_name(first.id), first.clone()));
    assert_eq!(key_box.save_key(first, true), Ok(()));
    assert_eq!(key_box.decrypt_passwd(1), Ok(text("p@ss1")));

    let second = key_box.create_new_key(text("example.org"), text("bob"), text("work"), "s3cret").unwrap();
    assert_eq!(second.id, 2);
    disk.push((rust_key_box::key::key_file_name(second.id), second.clone()));
    assert_eq!(key_box.save_key(second, true), Ok(()));
    assert_eq!(ids(&key_box), vec![1, 2]);

    let name = key_box.delete_key(1).unwrap();
    assert_eq!(name, "1.key");
    disk.retain(|(file, _)| *file != name);
    assert_eq!(key_box.real_delete_key(1, true), Ok(()));
    assert_eq!(ids(&key_box), vec![2]);
    assert_eq!(key_box.decrypt_passwd(1), Err(KeyBoxErr::NoSuchRecord));

    let read: Vec<Key> = disk.iter().map(|(_, key)| key.clone()).collect();
    let main_key: MainKey = key_box.into_main_key();
    let mut reloaded = KeyBox::load_keys(main_key, read).unwrap();
    assert_eq!(ids(&reloaded), vec![2]);
    assert_eq!(reloaded.decrypt_passwd(2), Ok(text("s3cret")));
    let third = reloaded.create_new_key(text("example.net"), text("carol"), text(""), "x").unwrap();
    assert_eq!(third.id, 3);
}

#[test]
fn reopening_from_disk_starts_above_the_highest_identifier() {
    let mut key_box = open_box(Vec::new());
    let first = add(&mut key_box, "example.com", "alice", "", "p@ss1");
    let second = add(&mut key_box, "example.org", "bob", "", "s3cret");
    assert_eq!((first.id, second.id), (1, 2));
    assert_eq!(key_box.real_delete_key(1, true), Ok(()));
    let mut again = open_box(vec![second.clone()]);
    assert_eq!(ids(&again), vec![2]);
    assert_eq!(again.max_id(), 2);
    assert_eq!(again.decrypt_passwd(2), Ok(text("s3cret")));
    assert_eq!(add(&mut again, "example.net", "carol", "", "x").id, 3);
    let mut sparse = open_box(vec![stored(7, "a", "b", ""), stored(40, "c", "d", ""), stored(9, "e", "f", "")]);
    assert_eq!(ids(&sparse), vec![7, 40, 9]);
    assert_eq!(sparse.max_id(), 40);
    assert_eq!(add(&mut sparse, "g", "h", "", "x").id, 41);
    let empty = open_box(Vec::new());
    assert_eq!(empty.max_id(), 0);
}

#[test]
fn identifiers_are_new_and_rising() {
    let mut key_box = open_box(vec![stored(5, "a", "b", "")]);
    let mut seen = vec![5];
    for round in 0..6 {
        let key = add(&mut key_box, "u", "l", "n", "secret");
        assert!(seen.iter().all(|id| *id < key.id));
        assert_eq!(key.id, 6 + round);
        seen.push(key.id);
    }
    assert_eq!(ids(&key_box), seen);
    assert_eq!(key_box.real_delete_key(11, true), Ok(()));
    assert_eq!(add(&mut key_box, "u", "l", "n", "secret").id, 12);
}

#[test]
fn a_wrong_password_opens_no_vault() {
    assert!(matches!(
        KeyBox::load_with_password(vault_container(), text("wrong-horse"), Vec::new()),
        Err(KeyBoxErr::WrongPassword)
    ));
    assert!(matches!(
        KeyBox::load_with_password(
            vault_container(),
            text("wrong-horse"),
            vec![stored(1, "a", "b", ""), stored(1, "c", "d", "")]
        ),
        Err(KeyBoxErr::WrongPassword)
    ));
    assert!(matches!(
        KeyBox::load_with_password(text("junk"), text("correct-horse"), Vec::new()),
        Err(KeyBoxErr::WrongPassword)
    ));
}

#[test]
fn a_vault_whose_container_names_a_scrypt_cost_of_zero_does_not_open() {
    let salt = [1u8; 16];
    let iv = [2u8; 16];
    let params = Parameters {
        kdf: Kdf::Scrypt(ScryptParams {
            salt: &salt,
            cost_parameter: 0,
            block_size: 8,
            parallelization: 1,
            key_length: None,
        }),
        encryption: rsa::pkcs8::pkcs5::pbes2::EncryptionScheme::Aes256Cbc { iv: &iv },
    };
    let data = [7u8; 48];
    let info = EncryptedPrivateKeyInfo {
        encryption_algorithm: rsa::pkcs8::pkcs5::EncryptionScheme::Pbes2(params),
        encrypted_data: &data,
    };
    let sealed = encode_string("ENCRYPTED PRIVATE KEY", LineEnding::LF, &info.to_vec().unwrap()).unwrap();
    assert!(matches!(
        KeyBox::load_with_password(sealed, text("correct-horse"), vec![stored(1, "a", "b", "")]),
        Err(KeyBoxErr::WrongPassword)
    ));
}

#[test]
fn credentials_that_share_an_identifier_are_refused() {
    assert!(matches!(
        KeyBox::load_with_password(
            vault_container(),
            text("correct-horse"),
            vec![stored(1, "a", "b", ""), stored(2, "c", "d", ""), stored(1, "e", "f", "")]
        ),
        Err(KeyBoxErr::CorruptRecordError)
    ));
    assert!(matches!(
        KeyBox::load_with_password(
            vault_container(),
            text("correct-horse"),
            vec![stored(0, "a", "b", ""), stored(0, "a", "b", "")]
        ),
        Err(KeyBoxErr::CorruptRecordError)
    ));
}

#[test]
fn a_query_finds_exactly_what_contains_it() {
    let key_box = open_box(vec![
        stored(1, "example.com", "alice", "bank"),
        stored(2, "example.org", "bob", "work mail"),
        stored(3, "rust-lang.org", "carol", ""),
        stored(4, "intranet", "alice.b", "Example"),
    ]);
    let found = |query: &str| -> Vec<u32> {
        key_box.query_key(query).iter().map(|key| key.id).collect()
    };
    assert_eq!(found("example"), vec![1, 2]);
    assert_eq!(found("Example"), vec![4]);
    assert_eq!(found("alice"), vec![1, 4]);
    assert_eq!(found("org"), vec![2, 3]);
    assert_eq!(found("work mail"), vec![2]);
    assert_eq!(found("k m"), vec![2]);
    assert_eq!(found(""), vec![1, 2, 3, 4]);
    assert_eq!(found("nothing"), Vec::<u32>::new());
    assert_eq!(found("c2VjcmV0"), Vec::<u32>::new());
    assert_eq!(found("example.comalice"), Vec::<u32>::new());
    let hits = key_box.query_key("carol");
    assert_eq!(hits.len(), 1);
    assert_eq!(hits[0].url, "rust-lang.org");
    assert_eq!(hits[0].password, "c2VjcmV0");
    let empty = open_box(Vec::new());
    assert!(empty.query_key("").is_empty());
}

#[test]
fn a_listing_shows_what_a_query_found() {
    let key_box = open_box(vec![
        stored(1, "example.com", "alice", "bank"),
        stored(2, "example.org", "bob", ""),
    ]);
    let hits = key_box.query_key("example");
    assert_eq!(
        display_keys(&hits.iter().collect()),
        Some(text(
            "id:1 url:example.com login:alice notes:bank last_updated:1970-01-01\n\
             id:2 url:example.org login:bob notes: last_updated:1970-01-01"
        ))
    );
    assert_eq!(
        display_keys(&key_box.list_all_keys().iter().collect()),
        display_keys(&hits.iter().collect())
    );
}

#[test]
fn revealing_needs_a_credential_and_a_ciphertext() {
    let mut key_box = open_box(vec![stored(4, "a", "b", "")]);
    let made = add(&mut key_box, "example.com", "alice", "", "p@ss1");
    assert_eq!(key_box.decrypt_passwd(made.id), Ok(text("p@ss1")));
    assert_eq!(key_box.decrypt_passwd(4), Err(KeyBoxErr::DecryptionError));
    assert_eq!(key_box.decrypt_passwd(6), Err(KeyBoxErr::NoSuchRecord));
    assert_eq!(key_box.decrypt_passwd(0), Err(KeyBoxErr::NoSuchRecord));
}

#[test]
fn an_edit_replaces_what_is_given_and_always_the_secret() {
    let mut key_box = open_box(Vec::new());
    let made = add(&mut key_box, "example.com", "alice", "bank", "p@ss1");
    let edited = key_box.edit_key(1, text("example.org"), text(""), text(""), "p@ss1").unwrap();
    assert_eq!(edited.id, 1);
    assert_eq!(edited.url, "example.org");
    assert_eq!(edited.user, "alice");
    assert_eq!(edited.notes, "bank");
    assert_ne!(edited.password, made.password);
    assert!(edited.last_updated >= made.last_updated);
    assert_eq!(key_box.list_all_keys()[0].url, "example.com");
    assert_eq!(key_box.save_key(edited.clone(), true), Ok(()));
    assert_eq!(ids(&key_box), vec![1]);
    assert_eq!(key_box.list_all_keys()[0].url, "example.org");
    assert_eq!(key_box.list_all_keys()[0].password, edited.password);
    assert_eq!(key_box.decrypt_passwd(1), Ok(text("p@ss1")));

    let again = key_box.edit_key(1, text(""), text("bob"), text("mail"), "").unwrap();
    assert_eq!((again.url.as_str(), again.user.as_str(), again.notes.as_str()), ("example.org", "bob", "mail"));
    assert_eq!(key_box.save_key(again, true), Ok(()));
    assert_eq!(key_box.decrypt_passwd(1), Ok(String::new()));
    assert_eq!(key_box.max_id(), 1);
}

#[test]
fn an_edit_needs_a_credential_and_a_secret_that_fits() {
    let mut key_box = open_box(Vec::new());
    add(&mut key_box, "example.com", "alice", "bank", "p@ss1");
    assert!(matches!(
        key_box.edit_key(2, text("x"), text("y"), text("z"), "p"),
        Err(KeyBoxErr::NoSuchRecord)
    ));
    assert!(matches!(
        key_box.edit_key(2, text("x"), text("y"), text("z"), &"a".repeat(300)),
        Err(KeyBoxErr::NoSuchRecord)
    ));
    assert!(matches!(
        key_box.edit_key(1, text("x"), text("y"), text("z"), &"a".repeat(246)),
        Err(KeyBoxErr::KeyGenerationError)
    ));
    assert!(matches!(
        key_box.revise(2, text("x"), text("y"), text("z"), text("c"), 5),
        Err(KeyBoxErr::NoSuchRecord)
    ));
    let revised = key_box.revise(1, text(""), text("y"), text(""), text("cipher"), 5).unwrap();
    assert_eq!(revised.id, 1);
    assert_eq!(revised.url, "example.com");
    assert_eq!(revised.user, "y");
    assert_eq!(revised.notes, "bank");
    assert_eq!(revised.password, "cipher");
    assert_eq!(revised.last_updated, 5);
    assert_eq!(key_box.decrypt_passwd(1), Ok(text("p@ss1")));
}

#[test]
fn a_secret_that_does_not_fit_makes_no_credential() {
    let mut key_box = open_box(Vec::new());
    assert_eq!(key_box.max_secret_len(), 245);
    assert!(matches!(
        key_box.create_new_key(text("u"), text("l"), text("n"), &"a".repeat(246)),
        Err(KeyBoxErr::KeyGenerationError)
    ));
    assert_eq!(key_box.max_id(), 0);
    assert!(key_box.list_all_keys().is_empty());
    assert_eq!(add(&mut key_box, "u", "l", "n", &"a".repeat(245)).id, 1);
}

#[test]
fn a_failed_write_leaves_the_vault_as_it_was() {
    let mut key_box = open_box(Vec::new());
    let made = key_box.create_new_key(text("u"), text("l"), text("n"), "secret").unwrap();
    assert_eq!(key_box.save_key(made, false), Err(KeyBoxErr::PersistenceError));
    assert!(key_box.list_all_keys().is_empty());
    assert_eq!(key_box.max_id(), 1);
    let next = add(&mut key_box, "u", "l", "n", "secret");
    assert_eq!(next.id, 2);
    let edited = key_box.edit_key(2, text("other"), text(""), text(""), "new").unwrap();
    assert_eq!(key_box.save_key(edited, false), Err(KeyBoxErr::PersistenceError));
    assert_eq!(key_box.list_all_keys()[0].url, "u");
    assert_eq!(key_box.decrypt_passwd(2), Ok(text("secret")));
}

#[test]
fn saving_puts_a_credential_in_its_place() {
    let mut key_box = open_box(vec![stored(1, "a", "b", ""), stored(2, "c", "d", ""), stored(3, "e", "f", "")]);
    assert_eq!(key_box.save_key(stored(2, "new", "d", ""), true), Ok(()));
    assert_eq!(ids(&key_box), vec![1, 2, 3]);
    assert_eq!(key_box.list_all_keys()[1].url, "new");
    assert_eq!(key_box.max_id(), 3);
    assert_eq!(key_box.save_key(stored(9, "far", "g", ""), true), Ok(()));
    assert_eq!(ids(&key_box), vec![1, 2, 3, 9]);
    assert_eq!(key_box.max_id(), 9);
    assert_eq!(add(&mut key_box, "u", "l", "n", "s").id, 10);
}

#[test]
fn a_removal_takes_one_credential_and_keeps_the_order() {
    let mut key_box = open_box(vec![
        stored(1, "a", "b", ""),
        stored(2, "c", "d", ""),
        stored(3, "e", "f", ""),
        stored(4, "g", "h", ""),
    ]);
    assert_eq!(key_box.delete_key(2), Ok(text("2.key")));
    assert_eq!(ids(&key_box), vec![1, 2, 3, 4]);
    assert_eq!(key_box.real_delete_key(2, true), Ok(()));
    assert_eq!(ids(&key_box), vec![1, 3, 4]);
    assert_eq!(key_box.delete_key(2), Err(KeyBoxErr::NoSuchRecord));
    assert_eq!(key_box.real_delete_key(2, true), Err(KeyBoxErr::NoSuchRecord));
    assert_eq!(key_box.real_delete_key(2, false), Err(KeyBoxErr::NoSuchRecord));
    assert_eq!(key_box.real_delete_key(4, false), Err(KeyBoxErr::PersistenceError));
    assert_eq!(ids(&key_box), vec![1, 3, 4]);
    assert_eq!(key_box.real_delete_key(4, true), Ok(()));
    assert_eq!(key_box.real_delete_key(1, true), Ok(()));
    assert_eq!(ids(&key_box), vec![3]);
    assert_eq!(key_box.max_id(), 4);
    assert_eq!(add(&mut key_box, "u", "l", "n", "s").id, 5);
    assert!(key_box.query_key("c").is_empty());
}

#[test]
fn a_credential_is_found_by_its_identifier() {
    let mut key_box = open_box(vec![stored(3, "a", "b", ""), stored(8, "c", "d", "")]);
    assert_eq!(key_box.find_key(8).map(|key| key.url.as_str()), Some("c"));
    assert_eq!(key_box.find_key(3).map(|key| key.user.as_str()), Some("b"));
    assert!(key_box.find_key(4).is_none());
    assert_eq!(key_box.real_delete_key(8, true), Ok(()));
    assert!(key_box.find_key(8).is_none());
}

#[test]
fn after_a_removal_no_file_carries_the_identifier() {
    let mut key_box = open_box(vec![stored(1, "a", "b", ""), stored(10, "c", "d", ""), stored(100, "e", "f", "")]);
    let name = key_box.delete_key(10).unwrap();
    assert_eq!(key_box.real_delete_key(10, true), Ok(()));
    let files: Vec<String> = key_box
        .list_all_keys()
        .iter()
        .map(|key| rust_key_box::key::key_file_name(key.id))
        .collect();
    assert_eq!(files, vec![text("1.key"), text("100.key")]);
    assert!(!files.contains(&name));
    let again = open_box(key_box.list_all_keys().clone());
    assert!(again.find_key(10).is_none());
    assert_eq!(ids(&again), vec![1, 100]);
}

#[test]
fn the_master_key_outlives_the_credentials() {
    let mut key_box = open_box(vec![stored(6, "a", "b", "")]);
    let made = add(&mut key_box, "example.com", "alice", "", "p@ss1");
    assert_eq!(made.id, 7);
    let main_key = key_box.into_main_key();
    assert_eq!(main_key.watermark(), 7);
    assert_eq!(main_key.decrypt(&made.password), Ok(text("p@ss1")));
    let again = KeyBox::load_keys(main_key, vec![stored(2, "c", "d", "")]).unwrap();
    assert_eq!(again.max_id(), 7);
    assert_eq!(ids(&again), vec![2]);
    let refused = KeyBox::load_keys(again.into_main_key(), vec![stored(2, "c", "d", ""), stored(2, "e", "f", "")]);
    assert!(matches!(refused, Err(KeyBoxErr::CorruptRecordError)));
}

#[test]
fn a_vault_is_kept_only_if_its_master_key_was_written() {
    let kept = open_box(vec![stored(3, "a", "b", "")]).main_key_saved(true).unwrap();
    assert_eq!(ids(&kept), vec![3]);
    assert_eq!(kept.max_id(), 3);
    assert!(matches!(
        open_box(vec![stored(3, "a", "b", "")]).main_key_saved(false),
        Err(KeyBoxErr::PersistenceError)
    ));
}

#[test]
fn the_first_shared_identifier_is_told() {
    assert_eq!(KeyBox::first_shared_id(&Vec::new()), None);
    assert_eq!(KeyBox::first_shared_id(&vec![stored(1, "a", "b", "")]), None);
    assert_eq!(
        KeyBox::first_shared_id(&vec![stored(1, "a", "b", ""), stored(2, "a", "b", ""), stored(3, "a", "b", "")]),
        None
    );
    assert_eq!(
        KeyBox::first_shared_id(&vec![stored(1, "a", "b", ""), stored(2, "c", "d", ""), stored(1, "e", "f", "")]),
        Some(1)
    );
    assert_eq!(
        KeyBox::first_shared_id(&vec![
            stored(5, "a", "b", ""),
            stored(7, "c", "d", ""),
            stored(9, "c", "d", ""),
            stored(7, "e", "f", ""),
            stored(5, "g", "h", ""),
        ]),
        Some(7)
    );
    assert_eq!(
        KeyBox::first_shared_id(&vec![stored(0, "a", "b", ""), stored(0, "a", "b", "")]),
        Some(0)
    );
}
