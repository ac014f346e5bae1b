use bilboat::{
    default_spec, embed_bytes, embed_message, extract_bytes, extract_message, shuffle_indices,
    EmbedError, Encryption, PayloadCipher, WavBuffer,
};

fn sine_samples(count: usize) -> Vec<i16> {
    (0..count)
        .map(|x| {
            let t = x as f32 / 44100.0;
            ((t * 440.0 * 2.0 * std::f32::consts::PI).sin() * i16::MAX as f32) as i16
        })
        .collect()
}

fn sine_buffer(seconds: usize) -> WavBuffer {
    let mut buffer = WavBuffer::write_samples(&sine_samples(44100 * seconds), default_spec()).unwrap();
    buffer.spec = Some(default_spec());
    buffer
}

struct XorCipher;

impl PayloadCipher for XorCipher {
    fn seal(&self, data: &Vec<u8>, key: &str) -> Vec<u8> {
        let k = key.as_bytes();
        data.iter().enumerate().map(|(i, b)| b ^ k[i % k.len()]).collect()
    }

    fn open(&self, data: &Vec<u8>, key: &str) -> Vec<u8> {
        self.seal(data, key)
    }
}

#[test]
fn test_wav_buffer_read_write() {
    let mut buffer = sine_buffer(1);
    let bytes: Vec<u8> = vec![1, 2, 3, 4, 5, 6];

    buffer.embed_bytes(&bytes, "key").unwrap();

    buffer.read_samples().unwrap();

    let extracted = buffer.extract_bytes("key").unwrap();
    assert_eq!(bytes, extracted);
}

#[test]
fn test_wav_buffer_wrong_key() {
    let mut buffer = sine_buffer(1);
    let bytes: Vec<u8> = vec![1, 2, 3, 4, 5, 6];

    buffer.embed_bytes(&bytes, "key").unwrap();

    let extracted = buffer.extract_bytes("wrong_key").unwrap();
    assert_ne!(bytes, extracted);
}

#[test]
fn wav_buffer_keeps_samples_and_spec() {
    let samples = sine_samples(1000);
    let buffer = WavBuffer::write_samples(&samples, default_spec()).unwrap();
    assert_eq!(buffer.read_samples().unwrap(), samples);
    assert_eq!(buffer.get_spec().unwrap(), default_spec());
}

#[test]
fn wav_buffer_rejects_bytes_that_are_no_container() {
    let buffer = WavBuffer::new(vec![1, 2, 3, 4]);
    assert!(buffer.read_samples().is_err());
    assert!(buffer.get_spec().is_err());
    assert!(buffer.extract_bytes("key").is_err());
    let mut copy = buffer.clone();
    assert!(copy.embed_bytes(&vec![1], "key").is_err());
    assert_eq!(copy.buffer, buffer.buffer);
}

#[test]
fn wav_buffer_reports_capacity() {
    let mut buffer = WavBuffer::write_samples(&vec![0i16; 20], default_spec()).unwrap();
    let before = buffer.buffer.clone();
    assert!(buffer.embed_bytes(&vec![1], "key").is_err());
    assert_eq!(buffer.buffer, before);
}

#[test]
fn hello_scenario_on_ten_seconds_of_sine() {
    let mut samples = sine_samples(441_000);
    let payload = b"Hello, Rust!".to_vec();
    embed_bytes(&mut samples, &payload, "super_secret_passphrase").unwrap();
    assert_eq!(extract_bytes(&samples, "super_secret_passphrase"), payload);
    assert_ne!(extract_bytes(&samples, "wrong_keyzz"), payload);
}

#[test]
fn round_trip_for_several_payloads() {
    let carrier = sine_samples(3000);
    let payloads: Vec<Vec<u8>> = vec![vec![], vec![0], vec![255; 10], (0..=255).collect()];
    for p in payloads {
        let mut samples = carrier.clone();
        embed_bytes(&mut samples, &p, "k").unwrap();
        assert_eq!(extract_bytes(&samples, "k"), p);
    }
}

#[test]
fn key_sensitivity() {
    let mut samples = sine_samples(5000);
    let payload = b"secret payload".to_vec();
    embed_bytes(&mut samples, &payload, "alpha").unwrap();
    for wrong in ["beta", "alpha ", "Alpha", ""] {
        assert_ne!(extract_bytes(&samples, wrong), payload);
    }
}

#[test]
fn embedding_touches_only_low_bits_of_framed_slots() {
    let before = sine_samples(3000);
    let mut samples = before.clone();
    let payload = b"locality".to_vec();
    embed_bytes(&mut samples, &payload, "k").unwrap();
    let perm = shuffle_indices("k", before.len());
    let used = 16 + 8 * payload.len();
    for (k, &i) in perm.iter().enumerate() {
        let diff = (samples[i] as i32 - before[i] as i32).abs();
        if k < used {
            assert!(diff <= 1);
            assert_eq!(samples[i] & !1, before[i] & !1);
        } else {
            assert_eq!(samples[i], before[i]);
        }
    }
}

#[test]
fn permutation_is_deterministic_and_complete() {
    let a = shuffle_indices("k", 1000);
    let b = shuffle_indices("k", 1000);
    assert_eq!(a, b);
    let mut sorted = a.clone();
    sorted.sort();
    assert_eq!(sorted, (0..1000).collect::<Vec<usize>>());
    assert_ne!(a, shuffle_indices("other", 1000));
    assert_ne!(a, (0..1000).collect::<Vec<usize>>());
    assert!(shuffle_indices("k", 0).is_empty());
    assert_eq!(shuffle_indices("k", 1), vec![0]);
}

#[test]
fn capacity_boundary() {
    let payload = vec![7u8; 3];
    let mut exact = vec![0i16; 16 + 8 * 3];
    assert_eq!(embed_bytes(&mut exact, &payload, "k"), Ok(()));
    assert_eq!(extract_bytes(&exact, "k"), payload);

    let mut short = vec![5i16; 16 + 8 * 3 - 1];
    let before = short.clone();
    assert_eq!(
        embed_bytes(&mut short, &payload, "k"),
        Err(EmbedError::CapacityExceeded { payload_len: 3, sample_count: 39 })
    );
    assert_eq!(short, before);

    let too_long = vec![0u8; 0x10000];
    let mut big = vec![0i16; 16 + 8 * 0x10000];
    assert!(embed_bytes(&mut big, &too_long, "k").is_err());
}

#[test]
fn empty_carrier_extracts_nothing() {
    let samples: Vec<i16> = Vec::new();
    assert_eq!(extract_bytes(&samples, "k"), Vec::<u8>::new());
}

#[test]
fn message_round_trip_without_encryption() {
    let mut samples = sine_samples(2000);
    let message = b"plain".to_vec();
    embed_message(&mut samples, &message, "k", Encryption::<XorCipher>::NoEncryption).unwrap();
    assert_eq!(extract_message(&samples, "k", Encryption::<XorCipher>::NoEncryption), message);
}

#[test]
fn message_round_trip_with_default_encryption() {
    let mut samples = sine_samples(2000);
    let message = b"Hello, Rust!".to_vec();
    embed_message(&mut samples, &message, "super_secret_passphrase", Encryption::<XorCipher>::default())
        .unwrap();
    let back = extract_message(&samples, "super_secret_passphrase", Encryption::<XorCipher>::Default);
    assert_eq!(back, message);
    let wrong = extract_message(&samples, "wrong_key", Encryption::<XorCipher>::Default);
    assert_ne!(wrong, message);
}

#[test]
fn default_encryption_needs_room_for_nonce_and_tag() {
    let message = vec![1u8; 2];
    let mut small = vec![0i16; 16 + 8 * (2 + 32) - 1];
    assert!(embed_message(&mut small, &message, "k", Encryption::<XorCipher>::Default).is_err());
    let mut enough = vec![0i16; 16 + 8 * (2 + 32)];
    assert!(embed_message(&mut enough, &message, "k", Encryption::<XorCipher>::Default).is_ok());
}

#[test]
fn message_round_trip_with_custom_cipher() {
    let mut samples = sine_samples(2000);
    let message = b"custom".to_vec();
    embed_message(&mut samples, &message, "xy", Encryption::Custom(XorCipher)).unwrap();
    let raw = extract_bytes(&samples, "xy");
    assert_eq!(raw, XorCipher.seal(&message, "xy"));
    assert_eq!(extract_message(&samples, "xy", Encryption::Custom(XorCipher)), message);
}

#[test]
fn write_samples_refuses_layouts_hound_cannot_write() {
    let samples = vec![1i16, 2, 3, 4];
    let mut float16 = default_spec();
    float16.float_format = true;
    assert!(WavBuffer::write_samples(&samples, float16).is_err());
    let mut no_channels = default_spec();
    no_channels.channels = 0;
    assert!(WavBuffer::write_samples(&samples, no_channels).is_err());
    let mut no_rate = default_spec();
    no_rate.sample_rate = 0;
    assert!(WavBuffer::write_samples(&samples, no_rate).is_err());
    let mut huge_rate = default_spec();
    huge_rate.sample_rate = u32::MAX;
    huge_rate.channels = 8;
    assert!(WavBuffer::write_samples(&samples, huge_rate).is_err());
    let mut odd_bits = default_spec();
    odd_bits.bits_per_sample = 12;
    assert!(WavBuffer::write_samples(&samples, odd_bits).is_err());
}

#[test]
fn write_samples_succeeds_on_sixteen_bit_layouts() {
    let samples = sine_samples(600);
    let mut stereo = default_spec();
    stereo.channels = 2;
    stereo.sample_rate = 48000;
    let buffer = WavBuffer::write_samples(&samples, stereo).unwrap();
    assert_eq!(buffer.read_samples().unwrap(), samples);
    assert_eq!(buffer.get_spec().unwrap(), stereo);
}

#[test]
fn embedding_keeps_the_container_layout() {
    let samples = sine_samples(4000);
    let mut stereo = default_spec();
    stereo.channels = 2;
    stereo.sample_rate = 48000;
    let mut buffer = WavBuffer::write_samples(&samples, stereo).unwrap();
    let payload = b"layout".to_vec();
    buffer.embed_bytes(&payload, "k").unwrap();
    assert_eq!(buffer.get_spec().unwrap(), stereo);
    let after = buffer.read_samples().unwrap();
    assert_eq!(after.len(), samples.len());
    assert_eq!(buffer.extract_bytes("k").unwrap(), payload);
}

#[test]
fn container_read_error_is_passed_on() {
    let mut buffer = WavBuffer::new(b"not a wav file at all".to_vec());
    let read_error = buffer.read_samples().unwrap_err();
    assert_eq!(buffer.extract_bytes("k").unwrap_err(), read_error);
    assert_eq!(buffer.embed_bytes(&vec![1, 2], "k").unwrap_err(), read_error);
}

#[test]
fn re_embedding_a_present_payload_changes_nothing() {
    let mut samples = sine_samples(3000);
    let payload = b"twice".to_vec();
    embed_bytes(&mut samples, &payload, "k").unwrap();
    let once = samples.clone();
    embed_bytes(&mut samples, &payload, "k").unwrap();
    assert_eq!(samples, once);

    let mut buffer = WavBuffer::write_samples(&once, default_spec()).unwrap();
    buffer.embed_bytes(&payload, "k").unwrap();
    assert_eq!(buffer.read_samples().unwrap(), once);
}

#[test]
fn hello_scenario_in_a_container() {
    let mut buffer = sine_buffer(10);
    let before = buffer.read_samples().unwrap();
    let payload = b"Hello, Rust!".to_vec();
    assert_eq!(buffer.embed_bytes(&payload, "super_secret_passphrase"), Ok(()));
    let after = buffer.read_samples().unwrap();
    let perm = shuffle_indices("super_secret_passphrase", before.len());
    let used: std::collections::HashSet<usize> = perm[..112].iter().cloned().collect();
    for i in 0..before.len() {
        if !used.contains(&i) {
            assert_eq!(after[i], before[i]);
        }
    }
    assert_eq!(buffer.extract_bytes("super_secret_passphrase").unwrap(), payload);
}
