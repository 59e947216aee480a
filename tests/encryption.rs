use aead::stream::{DecryptorBE32, NewStream, StreamBE32, StreamPrimitive};
use aes_gcm::aead::KeyInit;
use aes_gcm::Aes256Gcm;
use zfs_backup::cipher::{ChunkEncryptor, CipherError, Rechunker};
use zfs_backup::config::ENCRYPTION_CHUNK_SIZE;
use zfs_backup::hot_data::{
    decode_hot_data, encode_hot_data, HotDataError, RemoteHotData,
    RemoteHotDataInMemory, RemoteHotEncryptedData,
};
use zfs_backup::keys::{
    change_password, check_password, create_immutable_key, decrypt_immutable_key, derive_key,
    encrypt_immutable_key, generate_salt_and_derive_key, get_hasher, init_encryption_data,
    stream_key, KeyError,
};
use zfs_backup::naming::{key_snapshot_name, stored_snapshot_name};
use zfs_backup::settings::{BackupConfig, EncryptionConfig, EncryptionPassword, PasswordError};
use zfs_backup::geometry::total_chunks;

#[test]
fn ok() {
    let encryption_data = init_encryption_data(b"password").unwrap();
    assert_eq!(encryption_data.encrypted_root_key.len(), 48);
    assert_eq!(encryption_data.password_derived_key_salt.len(), 16);
}

#[test]
fn derived_key_depends_on_password_and_salt() {
    let salt = [7u8; 16];
    let a = derive_key(b"password", &salt).unwrap();
    assert_eq!(a.len(), 32);
    assert_eq!(a, derive_key(b"password", &salt).unwrap());
    assert_ne!(a, derive_key(b"passwore", &salt).unwrap());
    assert_eq!(derive_key(b"password", &[1, 2, 3]), Err(KeyError::CipherFailed));
}

#[test]
fn sealed_key_opens_only_with_its_password() {
    let data = init_encryption_data(b"p1").unwrap();
    let ck = decrypt_immutable_key(b"p1", &data).unwrap();
    assert_eq!(ck.len(), 32);
    assert_ne!(ck, data.encrypted_root_key[..32].to_vec());
    assert_eq!(decrypt_immutable_key(b"p2", &data), Err(KeyError::PasswordMismatch));
    let kek = derive_key(b"p1", &data.password_derived_key_salt).unwrap();
    assert_eq!(encrypt_immutable_key(&kek, &ck).unwrap(), data.encrypted_root_key);
}

#[test]
fn change_password_then_check() {
    let data = init_encryption_data(b"p1").unwrap();
    let mem = RemoteHotDataInMemory {
        encryption: Some(data.clone()),
        data: RemoteHotEncryptedData { snapshots: vec!["snap0".to_string()] },
    };
    let stored = mem.encrypt(Some(b"p1")).unwrap();
    let changed = change_password(b"p1", b"p2", &data).unwrap();
    assert_eq!(changed.blake3_salt, data.blake3_salt);
    assert_eq!(changed.aes_256_gcm_salt, data.aes_256_gcm_salt);
    assert_eq!(check_password(b"p2", &changed), Ok(()));
    assert_eq!(check_password(b"p1", &changed), Err(KeyError::PasswordMismatch));
    let ct = match stored {
        RemoteHotData::Encrypted(e) => e.encrypted_data,
        _ => panic!("expected sealed metadata"),
    };
    let rewritten = RemoteHotData::Encrypted(zfs_backup::hot_data::RemoteHotDataEncrypted {
        encryption_data: changed,
        encrypted_data: ct,
    });
    let bytes = encode_hot_data(&rewritten);
    let decoded = decode_hot_data(&bytes).unwrap();
    let opened = decoded.clone().decrypt(Some(b"p2")).unwrap();
    assert_eq!(opened.data.snapshots, vec!["snap0".to_string()]);
    assert_eq!(decoded.clone().decrypt(Some(b"p1")).err(), Some(HotDataError::PasswordMismatch));
    assert_eq!(decoded.decrypt(None).err(), Some(HotDataError::ConfigRemoteMismatch));
}

#[test]
fn clear_hot_data_round_trip() {
    let h = RemoteHotData::NotEncrypted(RemoteHotEncryptedData { snapshots: vec!["a".into(), "bé".into()] });
    let bytes = encode_hot_data(&h);
    assert_eq!(bytes, vec![0, 2, 1, b'a', 3, b'b', 0xc3, 0xa9]);
    let back = decode_hot_data(&bytes).unwrap();
    assert_eq!(encode_hot_data(&back), bytes);
    let opened = back.clone().decrypt(None).unwrap();
    assert_eq!(opened.data.snapshots, vec!["a".to_string(), "bé".to_string()]);
    assert_eq!(back.decrypt(Some(b"p")).err(), Some(HotDataError::ConfigRemoteMismatch));
    assert!(decode_hot_data(&vec![0, 1, 2, 0xff, 0xfe]).is_none());
    assert!(decode_hot_data(&vec![0, 1, 1, b'a', 9]).is_none());
    assert!(decode_hot_data(&vec![2]).is_none());
}

#[test]
fn hidden_snapshot_names_are_hashes() {
    let key = vec![9u8; 32];
    let hidden = key_snapshot_name("snapX", Some(&key));
    assert_eq!(hidden.len(), 64);
    assert!(hidden.iter().all(|c| c.is_ascii_hexdigit() && !c.is_ascii_uppercase()));
    let expected = blake3::keyed_hash(&[9u8; 32], b"snapX").to_hex().to_string();
    assert_eq!(hidden, expected.into_bytes());
    assert_eq!(key_snapshot_name("snapX", None), b"snapX".to_vec());
}

#[test]
fn password_sources() {
    assert_eq!(EncryptionPassword::Plain("pw".into()).get_bytes(None), Ok(b"pw".to_vec()));
    assert_eq!(EncryptionPassword::Hex("0aFf".into()).get_bytes(None), Ok(vec![0x0a, 0xff]));
    assert_eq!(EncryptionPassword::Hex("0aF".into()).get_bytes(None), Err(PasswordError::BadHex));
    assert_eq!(EncryptionPassword::File("k".into()).get_bytes(None), Err(PasswordError::FileNotRead));
    assert_eq!(EncryptionPassword::File("k".into()).get_bytes(Some(vec![1])), Ok(vec![1]));
}

fn encrypt_stream(key: &[u8], nonce: &[u8], plain: &[u8]) -> Vec<Vec<u8>> {
    let total = (plain.len() + ENCRYPTION_CHUNK_SIZE - 1) / ENCRYPTION_CHUNK_SIZE;
    let mut enc = ChunkEncryptor::new(key.to_vec(), nonce.to_vec(), total as u64, 0).unwrap();
    let mut buf = Rechunker::new();
    buf.push(plain);
    let mut out = Vec::new();
    while buf.len() > 0 {
        let chunk = buf.take(ENCRYPTION_CHUNK_SIZE);
        out.push(enc.encrypt_next(&chunk).unwrap());
    }
    assert_eq!(enc.encrypt_next(b"x"), Err(CipherError::StreamFinished));
    out
}

#[test]
fn stream_encryption_round_trip_and_tamper() {
    let key = [3u8; 32];
    let nonce = [0u8, 0, 0, 0, 0, 0, 1];
    let plain: Vec<u8> = (0..(ENCRYPTION_CHUNK_SIZE + 1000)).map(|i| (i % 251) as u8).collect();
    let chunks = encrypt_stream(&key, &nonce, &plain);
    assert_eq!(chunks.len(), 2);
    assert_eq!(chunks[0].len(), ENCRYPTION_CHUNK_SIZE + 16);
    assert_eq!(chunks[1].len(), 1000 + 16);
    let cipher = Aes256Gcm::new_from_slice(&key).unwrap();
    let mut dec = DecryptorBE32::from_aead(cipher, nonce.as_ref().into());
    let mut back = dec.decrypt_next(chunks[0].as_slice()).unwrap();
    back.extend(dec.decrypt_last(chunks[1].as_slice()).unwrap());
    assert_eq!(back, plain);
    let cipher = Aes256Gcm::new_from_slice(&key).unwrap();
    let stream = StreamBE32::from_aead(cipher, nonce.as_ref().into());
    let mut tampered = chunks[1].clone();
    tampered[5] ^= 1;
    assert!(stream.decrypt(1, true, tampered.as_slice()).is_err());
    assert!(stream.decrypt(1, false, chunks[1].as_slice()).is_err());
    assert_eq!(stream.decrypt(1, true, chunks[1].as_slice()).unwrap(), plain[ENCRYPTION_CHUNK_SIZE..].to_vec());
}

#[test]
fn len() {
    assert_eq!(create_immutable_key().len(), 32);
}

#[test]
fn works() {
    let hash_key = {
        let password = b"password";
        get_hasher(password, &init_encryption_data(password).unwrap())
    }
    .unwrap();
    let hash = key_snapshot_name("banned_books", Some(&hash_key));
    println!("Hash: {}", String::from_utf8(hash).unwrap());
}

#[test]
fn sub_keys_come_from_the_content_key() {
    let data = init_encryption_data(b"pw").unwrap();
    let ck = decrypt_immutable_key(b"pw", &data).unwrap();
    let sk = stream_key(&ck, &data).unwrap();
    assert_eq!(sk, derive_key(&ck, &data.aes_256_gcm_salt).unwrap());
    let hk = get_hasher(b"pw", &data).unwrap();
    assert_eq!(hk, derive_key(&ck, &data.blake3_salt).unwrap());
    assert_ne!(sk, hk);
    assert_eq!(get_hasher(b"other", &data), Err(KeyError::PasswordMismatch));
    let (salt, key) = generate_salt_and_derive_key(b"pw").unwrap();
    assert_eq!(salt.len(), 16);
    assert_eq!(key, derive_key(b"pw", &salt).unwrap());
}

#[test]
fn tampered_hot_data_is_corrupt() {
    let data = init_encryption_data(b"pw").unwrap();
    let mem = RemoteHotDataInMemory {
        encryption: Some(data),
        data: RemoteHotEncryptedData { snapshots: vec!["s".to_string()] },
    };
    let mut sealed = match mem.encrypt(Some(b"pw")).unwrap() {
        RemoteHotData::Encrypted(e) => e,
        _ => panic!("expected sealed metadata"),
    };
    sealed.encrypted_data[0] ^= 1;
    let h = RemoteHotData::Encrypted(sealed);
    assert_eq!(h.decrypt(Some(b"pw")).err(), Some(HotDataError::HotMetadataCorrupt));
}

#[test]
fn encryptor_refuses_too_many_chunks() {
    assert_eq!(
        ChunkEncryptor::new(vec![0; 32], vec![0; 7], (1u64 << 32) + 1, 0).err(),
        Some(CipherError::TooManyChunks)
    );
    assert!(ChunkEncryptor::new(vec![0; 32], vec![0; 7], 1u64 << 32, 0).is_ok());
}

#[test]
fn chunk_counts() {
    assert_eq!(total_chunks(0), 0);
    assert_eq!(total_chunks(1), 1);
    assert_eq!(total_chunks(ENCRYPTION_CHUNK_SIZE as u64), 1);
    assert_eq!(total_chunks(ENCRYPTION_CHUNK_SIZE as u64 + 1), 2);
}

#[test]
fn full_chunks_then_rest() {
    let key = [5u8; 32];
    let nonce = [0u8; 7];
    let plain: Vec<u8> = (0..(2 * ENCRYPTION_CHUNK_SIZE + 7)).map(|i| (i % 253) as u8).collect();
    let total = total_chunks(plain.len() as u64);
    assert_eq!(total, 3);
    let mut enc = ChunkEncryptor::new(key.to_vec(), nonce.to_vec(), total, 0).unwrap();
    let mut buf = Rechunker::new();
    let mut out = Rechunker::new();
    buf.push(&plain[..ENCRYPTION_CHUNK_SIZE + 3]);
    enc.encrypt_full_chunks(&mut buf, &mut out).unwrap();
    assert_eq!(buf.len(), 3);
    assert_eq!(out.len(), ENCRYPTION_CHUNK_SIZE + 16);
    buf.push(&plain[ENCRYPTION_CHUNK_SIZE + 3..]);
    enc.encrypt_full_chunks(&mut buf, &mut out).unwrap();
    assert_eq!(buf.len(), 7);
    enc.encrypt_rest(&mut buf, &mut out).unwrap();
    enc.encrypt_rest(&mut buf, &mut out).unwrap();
    let all = out.take(usize::MAX);
    assert_eq!(all.len(), plain.len() + 3 * 16);
    let c = ENCRYPTION_CHUNK_SIZE + 16;
    let cipher = Aes256Gcm::new_from_slice(&key).unwrap();
    let mut dec = DecryptorBE32::from_aead(cipher, nonce.as_ref().into());
    let mut back = dec.decrypt_next(&all[..c]).unwrap();
    back.extend(dec.decrypt_next(&all[c..2 * c]).unwrap());
    back.extend(dec.decrypt_last(&all[2 * c..]).unwrap());
    assert_eq!(back, plain);
}

fn config(hide: bool) -> BackupConfig {
    BackupConfig {
        encryption: Some(EncryptionConfig {
            password: EncryptionPassword::Plain("pw".into()),
            encrypt_snapshot_names: hide,
        }),
        zfs_dataset_name: "pool/data".into(),
        create_empty_objects: false,
    }
}

#[test]
fn stored_names_follow_the_configuration() {
    let data = init_encryption_data(b"pw").unwrap();
    assert_eq!(stored_snapshot_name(&config(false), "snapX", Some(b"pw"), Some(&data)), Ok(b"snapX".to_vec()));
    let hidden = stored_snapshot_name(&config(true), "snapX", Some(b"pw"), Some(&data)).unwrap();
    let key = get_hasher(b"pw", &data).unwrap();
    assert_eq!(hidden, key_snapshot_name("snapX", Some(&key)));
    assert_eq!(hidden.len(), 64);
    assert_eq!(stored_snapshot_name(&config(true), "snapX", None, Some(&data)), Err(KeyError::NoKeyMaterial));
    assert_eq!(stored_snapshot_name(&config(true), "snapX", Some(b"no"), Some(&data)), Err(KeyError::PasswordMismatch));
    let plain = BackupConfig { encryption: None, zfs_dataset_name: "p/d".into(), create_empty_objects: true };
    assert_eq!(stored_snapshot_name(&plain, "s", None, None), Ok(b"s".to_vec()));
}

#[test]
fn available_plaintext_is_sealed_at_the_end() {
    let key = [6u8; 32];
    let nonce = [0u8, 0, 0, 0, 0, 0, 2];
    let plain: Vec<u8> = (0..(ENCRYPTION_CHUNK_SIZE + 9)).map(|i| (i % 241) as u8).collect();
    let mut enc = ChunkEncryptor::new(key.to_vec(), nonce.to_vec(), total_chunks(plain.len() as u64), 0).unwrap();
    let mut buf = Rechunker::new();
    let mut out = Rechunker::new();
    buf.push(&plain);
    enc.encrypt_available(&mut buf, &mut out, false).unwrap();
    assert_eq!(buf.len(), 9);
    assert_eq!(out.len(), ENCRYPTION_CHUNK_SIZE + 16);
    enc.encrypt_available(&mut buf, &mut out, true).unwrap();
    assert_eq!(buf.len(), 0);
    let all = out.take(usize::MAX);
    let c = ENCRYPTION_CHUNK_SIZE + 16;
    let cipher = Aes256Gcm::new_from_slice(&key).unwrap();
    let mut dec = DecryptorBE32::from_aead(cipher, nonce.as_ref().into());
    let mut back = dec.decrypt_next(&all[..c]).unwrap();
    back.extend(dec.decrypt_last(&all[c..]).unwrap());
    assert_eq!(back, plain);
}

#[test]
fn sealed_list_round_trips_and_survives_a_password_change() {
    let data = init_encryption_data(b"old").unwrap();
    let names = vec!["snap0".to_string(), "snap1".to_string()];
    let mem = RemoteHotDataInMemory { encryption: Some(data.clone()), data: RemoteHotEncryptedData { snapshots: names.clone() } };
    let sealed = mem.encrypt(Some(b"old")).unwrap();
    let back = sealed.clone().decrypt(Some(b"old")).unwrap();
    assert_eq!(back.data.snapshots, names);
    let e = match sealed {
        RemoteHotData::Encrypted(e) => e,
        _ => panic!("expected sealed metadata"),
    };
    let changed = change_password(b"old", b"new", &e.encryption_data).unwrap();
    let rewritten = RemoteHotData::Encrypted(zfs_backup::hot_data::RemoteHotDataEncrypted {
        encryption_data: changed,
        encrypted_data: e.encrypted_data,
    });
    assert_eq!(rewritten.decrypt(Some(b"new")).unwrap().data.snapshots, names);
}
