use xoodyak::{Error, Tag, Xoodoo, XoodyakAny, XoodyakCommon, XoodyakHash, XoodyakKeyed};

fn fresh_aead_engine() -> XoodyakKeyed {
    let nonce = [0u8, 1, 2, 3, 4, 5, 6, 7, 8, 9, 10, 11, 12, 13, 14, 15];
    let mut st = XoodyakKeyed::new(b"key", Some(&nonce), None, None).unwrap();
    st.absorb(b"ad");
    st
}

#[test]
fn tamper_detection_bit_flips() {
    let m = b"message";
    let mut st = fresh_aead_engine();
    let c = st.aead_encrypt_to_vec(Some(m)).unwrap();
    assert_eq!(c.len(), m.len() + 16);
    for i in 0..c.len() {
        for bit in 0..8 {
            let mut tampered = c.clone();
            tampered[i] ^= 1u8 << bit;
            let mut st = fresh_aead_engine();
            let r = st.aead_decrypt_to_vec(&tampered);
            assert_eq!(r.unwrap_err(), Error::TagMismatch);
        }
    }
}

#[test]
fn ratchet_changes_future_outputs() {
    let m = b"message";
    let st0 = fresh_aead_engine();
    let mut plain = st0.clone();
    let mut ratcheted = st0;
    ratcheted.ratchet();
    let c1 = plain.aead_encrypt_to_vec(Some(m)).unwrap();
    let c2 = ratcheted.aead_encrypt_to_vec(Some(m)).unwrap();
    assert_eq!(c1.len(), c2.len());
    // Both the ciphertext and the tag must differ.
    assert_ne!(c1[..m.len()], c2[..m.len()]);
    assert_ne!(c1[m.len()..], c2[m.len()..]);
}

#[test]
fn encrypt_rejects_short_buffer() {
    let mut st = XoodyakKeyed::new(b"key", None, None, None).unwrap();
    let st0 = st.clone();
    let mut out = [0u8; 3];
    let r = st.encrypt(&mut out, b"message");
    assert_eq!(r.unwrap_err(), Error::InvalidBufferLength);
    // No partial output was produced.
    assert_eq!(out, [0u8; 3]);
    // The engine state was untouched: it still squeezes what a fresh
    // engine squeezes.
    let mut fresh = st0.clone();
    let a = st.squeeze_to_vec(16);
    let b = fresh.squeeze_to_vec(16);
    assert_eq!(a, b);

    // The combined AEAD form also rejects a buffer with no room for a tag.
    let mut st = st0;
    let mut short = [0u8; 20];
    let r = st.aead_encrypt(&mut short, Some(b"message"));
    assert_eq!(r.unwrap_err(), Error::InvalidBufferLength);
    assert_eq!(short, [0u8; 20]);
}

#[test]
fn empty_absorb_changes_output() {
    let mut untouched = XoodyakHash::new();
    let mut absorbed_empty = XoodyakHash::new();
    absorbed_empty.absorb(&[]);
    let a = untouched.squeeze_to_vec(32);
    let b = absorbed_empty.squeeze_to_vec(32);
    assert_ne!(a, b);
}

#[test]
fn deterministic_across_runs() {
    let nonce = [7u8; 16];
    let counter = [1u8, 2, 3];
    let build = || {
        XoodyakKeyed::new(b"secret key", Some(&nonce), Some(b"id"), Some(&counter)).unwrap()
    };
    let mut a = build();
    let mut b = build();
    let c1 = a.aead_encrypt_to_vec(Some(b"payload")).unwrap();
    let c2 = b.aead_encrypt_to_vec(Some(b"payload")).unwrap();
    assert_eq!(c1, c2);
    let mut ha = XoodyakHash::new();
    let mut hb = XoodyakHash::new();
    ha.absorb(b"data");
    hb.absorb(b"data");
    assert_eq!(ha.squeeze_to_vec(24), hb.squeeze_to_vec(24));
}

#[test]
fn construction_parameter_lengths() {
    // 27 + 1 + 0 + 16 == 44: just fits.
    let key = [0xAAu8; 27];
    let nonce = [0x55u8; 16];
    assert!(XoodyakKeyed::new(&key, Some(&nonce), None, None).is_ok());
    // 28 + 1 + 0 + 16 == 45: one byte over the keyed absorb rate.
    let key = [0xAAu8; 28];
    let r = XoodyakKeyed::new(&key, Some(&nonce), None, None);
    assert_eq!(r.unwrap_err(), Error::InvalidParameterLength);
}

#[test]
fn keyed_only_operations_require_a_key() {
    let mut st = XoodyakAny::Hash(XoodyakHash::new());
    let mut out = [0u8; 16];
    assert_eq!(st.encrypt(&mut out, b"m").unwrap_err(), Error::KeyRequired);
    assert_eq!(st.decrypt(&mut out, b"m").unwrap_err(), Error::KeyRequired);
    assert_eq!(st.ratchet().unwrap_err(), Error::KeyRequired);
    assert_eq!(
        st.aead_encrypt_to_vec(Some(b"m")).unwrap_err(),
        Error::KeyRequired
    );
    assert_eq!(st.aead_decrypt_to_vec(&out).unwrap_err(), Error::KeyRequired);
    assert_eq!(
        st.absorb_key_and_nonce(b"key", None, None, None).unwrap_err(),
        Error::KeyRequired
    );
}

#[test]
fn any_engine_matches_dedicated_engines() {
    // Hashing through the sum type gives the same bytes as the hash engine.
    let mut plain = XoodyakHash::new();
    let mut any = XoodyakAny::Hash(XoodyakHash::new());
    plain.absorb(b"data");
    any.absorb(b"data");
    assert_eq!(plain.squeeze_to_vec(32), any.squeeze_to_vec(32));

    // A keyed round trip through the sum type.
    let keyed = XoodyakKeyed::new(b"key", None, None, None).unwrap();
    let mut enc = XoodyakAny::Keyed(keyed.clone());
    let mut dec = XoodyakAny::Keyed(keyed);
    let c = enc.aead_encrypt_to_vec(Some(b"message")).unwrap();
    let m = dec.aead_decrypt_to_vec(&c).unwrap();
    assert_eq!(m, b"message");
}

#[test]
fn tag_comparison_and_verify() {
    let bytes = [9u8; 16];
    let tag = Tag::from(bytes);
    assert!(tag.verify(bytes).is_ok());
    let mut other = bytes;
    other[15] ^= 0x80;
    assert_eq!(tag.verify(other).unwrap_err(), Error::TagMismatch);
    assert_eq!(Tag::from(bytes), Tag::new(bytes));
    assert_ne!(Tag::from(bytes), Tag::new(other));
    assert_eq!(tag.to_bytes(), bytes);
}

#[test]
fn squeeze_domains_are_separated() {
    // The squeeze domain byte is XOR-ed into the state in keyed mode, so
    // plain squeeze output and key-derivation output differ there.
    let mut output = XoodyakKeyed::new(b"key", None, None, None).unwrap();
    let mut key_output = XoodyakKeyed::new(b"key", None, None, None).unwrap();
    let a = output.squeeze_to_vec(32);
    let mut b = vec![0u8; 32];
    key_output.squeeze_key(&mut b);
    assert_ne!(a, b);
}

#[test]
fn squeeze_more_continues_the_stream() {
    let mut at_once = XoodyakHash::new();
    let whole = at_once.squeeze_to_vec(32);
    let mut stepwise = XoodyakHash::new();
    let mut first = stepwise.squeeze_to_vec(16);
    let mut rest = vec![0u8; 16];
    stepwise.squeeze_more(&mut rest);
    first.extend_from_slice(&rest);
    assert_eq!(whole, first);
}

#[test]
fn counter_and_key_id_separate_streams() {
    let base = XoodyakKeyed::new(b"key", None, None, None).unwrap();
    let with_counter = XoodyakKeyed::new(b"key", None, None, Some(&[1u8])).unwrap();
    let with_empty_counter = XoodyakKeyed::new(b"key", None, None, Some(&[])).unwrap();
    let with_id = XoodyakKeyed::new(b"key", None, Some(b"id"), None).unwrap();
    let mut streams = [base, with_counter, with_empty_counter, with_id];
    let mut outs: Vec<Vec<u8>> = Vec::new();
    for st in streams.iter_mut() {
        outs.push(st.squeeze_to_vec(32));
    }
    // An absent counter, an empty counter, a one-byte counter and a key id
    // all lead to different output streams.
    for i in 0..outs.len() {
        for j in 0..i {
            assert_ne!(outs[i], outs[j]);
        }
    }
}

#[test]
fn absorb_more_extends_an_absorption() {
    // `absorb(a ++ b)` with b past the first rate-sized chunk equals
    // `absorb(first chunk)` then `absorb_more(rest)` at the same rate.
    let mut whole = XoodyakHash::new();
    let data = [0x42u8; 40];
    whole.absorb(&data);
    let mut stepwise = XoodyakHash::new();
    stepwise.absorb(&data[..16]);
    stepwise.absorb_more(&data[16..], 16);
    assert_eq!(whole.squeeze_to_vec(32), stepwise.squeeze_to_vec(32));
}

#[test]
fn error_messages_are_stable() {
    assert_eq!(Error::InvalidBufferLength.message(), "Invalid buffer length");
    assert_eq!(Error::InvalidParameterLength.message(), "Key too long");
    assert_eq!(Error::KeyRequired.message(), "A key is required");
    assert_eq!(Error::TagMismatch.message(), "Tag mismatch");
}

#[test]
fn state_byte_primitives() {
    let mut bytes = [0u8; 48];
    for (i, b) in bytes.iter_mut().enumerate() {
        *b = i as u8;
    }
    let mut st = Xoodoo::from_bytes(bytes);
    let mut round_trip = [0u8; 48];
    st.bytes(&mut round_trip);
    assert_eq!(bytes, round_trip);

    st.add_byte(0xFF, 1);
    let mut prefix = [0u8; 2];
    st.extract_bytes(&mut prefix);
    assert_eq!(prefix, [0, 1 ^ 0xFF]);

    st.add_bytes(&[0xF0, 0x0F]);
    let mut prefix = [0u8; 3];
    st.extract_bytes(&mut prefix);
    assert_eq!(prefix, [0xF0, 1 ^ 0xFF ^ 0x0F, 2]);

    // The permutation is deterministic and changes the state.
    let mut a = Xoodoo::from_bytes(bytes);
    let mut b = Xoodoo::from_bytes(bytes);
    a.permute();
    b.permute();
    let mut out_a = [0u8; 48];
    let mut out_b = [0u8; 48];
    a.bytes(&mut out_a);
    b.bytes(&mut out_b);
    assert_eq!(out_a, out_b);
    assert_ne!(out_a, bytes);
}

#[test]
fn detached_aead_round_trip() {
    let mut enc = fresh_aead_engine();
    let mut out = vec![0u8; 7];
    let tag = enc.aead_encrypt_detached(&mut out, Some(b"message")).unwrap();
    let mut dec = fresh_aead_engine();
    let mut pt = vec![0u8; 7];
    dec.aead_decrypt_detached(&mut pt, &tag, Some(&out)).unwrap();
    assert_eq!(pt, b"message");

    // A wrong tag zeroes the whole output buffer.
    let mut dec = fresh_aead_engine();
    let mut pt = vec![0u8; 7];
    let wrong = Tag::new([0u8; 16]);
    let r = dec.aead_decrypt_detached(&mut pt, &wrong, Some(&out));
    assert_eq!(r.unwrap_err(), Error::TagMismatch);
    assert_eq!(pt, vec![0u8; 7]);
}

#[test]
fn in_place_aead_detached_round_trip() {
    let mut enc = fresh_aead_engine();
    let mut buf = b"message".to_vec();
    let tag = enc.aead_encrypt_in_place_detached(&mut buf);
    let mut dec = fresh_aead_engine();
    dec.aead_decrypt_in_place_detached(&mut buf, &tag).unwrap();
    assert_eq!(buf, b"message");

    // Tampering zeroes the buffer.
    let mut enc = fresh_aead_engine();
    let mut buf = b"message".to_vec();
    let tag = enc.aead_encrypt_in_place_detached(&mut buf);
    buf[0] ^= 1;
    let mut dec = fresh_aead_engine();
    let r = dec.aead_decrypt_in_place_detached(&mut buf, &tag);
    assert_eq!(r.unwrap_err(), Error::TagMismatch);
    assert_eq!(buf, vec![0u8; 7]);
}

#[test]
fn combined_in_place_aead_round_trip() {
    let mut enc = fresh_aead_engine();
    let mut buf = b"message".to_vec();
    buf.extend_from_slice(&[0u8; 16]);
    enc.aead_encrypt_in_place(&mut buf).unwrap();
    let mut dec = fresh_aead_engine();
    dec.aead_decrypt_in_place(&mut buf).unwrap();
    assert_eq!(&buf[..7], b"message");

    let mut st = XoodyakKeyed::new(b"key", None, None, None).unwrap();
    let mut tiny = [0u8; 5];
    assert_eq!(
        st.aead_encrypt_in_place(&mut tiny).unwrap_err(),
        Error::InvalidBufferLength
    );
}
