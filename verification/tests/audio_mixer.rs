use mofa_studio::audio_mixer::{
    AudioMetadata, AudioMixer, MixerError, Mp3Bitrate, PcmFormat, WavHeader,
};

/// The format of the default mixer configuration: 22050 Hz, mono, 16-bit.
fn default_format() -> PcmFormat {
    PcmFormat { sample_rate: 22050, channels: 1, bits_per_sample: 16 }
}

#[test]
fn test_wav_header_creation() {
    let config = default_format();
    let header = WavHeader::new(&config, 1000);

    assert_eq!(&header.riff, b"RIFF");
    assert_eq!(&header.wave, b"WAVE");
    assert_eq!(&header.fmt_id, b"fmt ");
    assert_eq!(&header.data_id, b"data");
    assert_eq!(header.file_size, 36 + 1000);
}

#[test]
fn test_wav_header_parsing() {
    let config = default_format();
    let header = WavHeader::new(&config, 1000);

    let bytes = header.to_bytes();
    let parsed = WavHeader::from_bytes(&bytes).unwrap();
    assert_eq!(parsed.channels, config.channels);
    assert_eq!(parsed.sample_rate, config.sample_rate);
    assert_eq!(parsed.bits_per_sample, config.bits_per_sample);
}

#[test]
fn header_fields_are_computed_and_written_little_endian() {
    let format = PcmFormat { sample_rate: 44100, channels: 2, bits_per_sample: 16 };
    let header = WavHeader::new(&format, 8);
    assert_eq!(header.byte_rate, 176400);
    assert_eq!(header.block_align, 4);
    assert_eq!(header.fmt_size, 16);
    assert_eq!(header.audio_format, 1);
    let bytes = header.to_bytes();
    assert_eq!(bytes.len(), 44);
    assert_eq!(&bytes[0..4], b"RIFF");
    assert_eq!(&bytes[4..8], &44u32.to_le_bytes());
    assert_eq!(&bytes[24..28], &44100u32.to_le_bytes());
    assert_eq!(&bytes[28..32], &176400u32.to_le_bytes());
    assert_eq!(&bytes[40..44], &8u32.to_le_bytes());
    let again = WavHeader::from_bytes(&bytes).unwrap();
    assert_eq!(again.to_bytes(), bytes);
}

#[test]
fn header_problems_are_reported() {
    let good = WavHeader::new(&default_format(), 0).to_bytes();
    let expect = |bytes: &[u8], msg: &str| match WavHeader::from_bytes(bytes) {
        Err(MixerError::InvalidWavHeader(m)) => assert_eq!(m, msg),
        other => panic!("unexpected {:?}", other),
    };
    expect(&good[..43], "File too short");
    let mut b = good.clone();
    b[0] = b'X';
    expect(&b, "Missing RIFF identifier");
    let mut b = good.clone();
    b[8] = b'X';
    expect(&b, "Missing WAVE identifier");
    let mut b = good.clone();
    b[12] = b'X';
    expect(&b, "Missing fmt chunk");
    let mut b = good.clone();
    b[36] = b'X';
    expect(&b, "Missing data chunk");
}

#[test]
fn written_file_reads_back() {
    let format = default_format();
    // 1 second at 22050 Hz, 1 channel, 16-bit = 44100 bytes
    let audio = vec![0u8; 44100];
    let file = AudioMixer::wav_file_bytes(&format, &audio);
    assert_eq!(file.len(), 44 + 44100);
    let data = AudioMixer::read_wav_data(&file, &format).unwrap();
    assert_eq!(data.len(), 44100);

    let audio: Vec<u8> = (0..1000u32).map(|i| (i % 251) as u8).collect();
    let file = AudioMixer::wav_file_bytes(&format, &audio);
    assert_eq!(AudioMixer::read_wav_data(&file, &format).unwrap(), audio);
}

#[test]
fn format_mismatches_are_reported() {
    let written = PcmFormat { sample_rate: 32000, channels: 2, bits_per_sample: 16 };
    let file = AudioMixer::wav_file_bytes(&written, &[1, 2, 3, 4]);
    let msg = |r: Result<Vec<u8>, MixerError>| match r {
        Err(MixerError::FormatMismatch(m)) => m,
        other => panic!("unexpected {:?}", other),
    };
    assert_eq!(
        msg(AudioMixer::read_wav_data(&file, &PcmFormat { channels: 1, ..written })),
        "Channel mismatch: expected 1, got 2"
    );
    assert_eq!(
        msg(AudioMixer::read_wav_data(&file, &PcmFormat { sample_rate: 22050, ..written })),
        "Sample rate mismatch: expected 22050, got 32000"
    );
    assert_eq!(
        msg(AudioMixer::read_wav_data(&file, &PcmFormat { bits_per_sample: 8, ..written })),
        "Bits per sample mismatch: expected 8, got 16"
    );
    let e = AudioMixer::read_wav_data(&file, &PcmFormat { channels: 1, ..written }).unwrap_err();
    assert_eq!(e.describe(), "Format mismatch: Channel mismatch: expected 1, got 2");
}

#[test]
fn segments_are_joined_with_silence_between() {
    let mixer = AudioMixer::new();
    let segs = vec![vec![1u8, 2], vec![3u8], vec![4u8, 5, 6]];
    let joined = mixer.join_segments(&segs, 2).unwrap();
    assert_eq!(joined, vec![1, 2, 0, 0, 3, 0, 0, 4, 5, 6]);
    let one = mixer.join_segments(&vec![vec![9u8]], 5).unwrap();
    assert_eq!(one, vec![9]);
    assert!(matches!(mixer.join_segments(&Vec::new(), 2), Err(MixerError::NoSegments)));
    assert_eq!(MixerError::NoSegments.describe(), "No segments to mix");
}

#[test]
fn silence_length_in_bytes() {
    // 0.5 s at 22050 Hz is 11025 samples
    assert_eq!(AudioMixer::silence_byte_count(11025, &default_format()), 22050);
    let stereo = PcmFormat { sample_rate: 44100, channels: 2, bits_per_sample: 24 };
    assert_eq!(AudioMixer::silence_byte_count(10, &stereo), 60);
}

#[test]
fn pcm_samples_round_trip() {
    let bytes = [0x01u8, 0x00, 0xff, 0xff, 0x00, 0x80, 0x7f];
    let samples = AudioMixer::decode_pcm16(&bytes);
    assert_eq!(samples, vec![1i16, -1, i16::MIN]);
    assert_eq!(AudioMixer::encode_pcm16(&samples), bytes[..6].to_vec());
    let s = vec![0i16, 12345, -12345, i16::MAX];
    assert_eq!(AudioMixer::decode_pcm16(&AudioMixer::encode_pcm16(&s)), s);
}

#[test]
fn mp3_encoder_arguments() {
    let none = AudioMetadata::empty();
    assert_eq!(
        AudioMixer::mp3_encoder_args(Mp3Bitrate::Kbps192, &none),
        vec![
            "-codec:a", "libmp3lame", "-b:a", "192k", "-qscale:a", "2", "-metadata",
            "encoded_by=MoFA Cast v0.6.2",
        ]
    );
    let meta = AudioMetadata {
        title: Some("Ep 1".to_string()),
        artist: None,
        album: Some("Show".to_string()),
        year: Some("2025".to_string()),
        comment: None,
    };
    let args = AudioMixer::mp3_encoder_args(Mp3Bitrate::Kbps320, &meta);
    assert_eq!(
        args,
        vec![
            "-codec:a", "libmp3lame", "-b:a", "320k", "-qscale:a", "2", "-metadata", "title=Ep 1",
            "-metadata", "album=Show", "-metadata", "year=2025", "-metadata",
            "encoded_by=MoFA Cast v0.6.2",
        ]
    );
}

#[test]
fn bitrates() {
    assert_eq!(Mp3Bitrate::Kbps128.kbps(), 128);
    assert_eq!(Mp3Bitrate::Kbps192.kbps(), 192);
    assert_eq!(Mp3Bitrate::Kbps256.kbps(), 256);
    assert_eq!(Mp3Bitrate::Kbps320.kbps(), 320);
    assert_eq!(Mp3Bitrate::Kbps128.display_name(), "128 kbps (Good)");
    assert_eq!(Mp3Bitrate::Kbps320.display_name(), "320 kbps (Max)");
}

#[test]
fn mixing_file_images_gives_one_wav_file() {
    let format = default_format();
    let mixer = AudioMixer::new();
    let a = AudioMixer::wav_file_bytes(&format, &[1, 2, 3, 4]);
    let b = AudioMixer::wav_file_bytes(&format, &[5, 6]);
    let out = mixer.mix_wav_images(vec![Ok(a), Ok(b)], &format, 2).unwrap();
    assert_eq!(&out[44..], &[1, 2, 3, 4, 0, 0, 5, 6]);
    assert_eq!(&out[40..44], &8u32.to_le_bytes());
    let back = AudioMixer::read_wav_data(&out, &format).unwrap();
    assert_eq!(back, vec![1, 2, 3, 4, 0, 0, 5, 6]);
}

#[test]
fn mixing_reports_the_first_failing_file() {
    let format = default_format();
    let mixer = AudioMixer::new();
    assert!(matches!(mixer.mix_wav_images(vec![], &format, 2), Err(MixerError::NoSegments)));
    let good = AudioMixer::wav_file_bytes(&format, &[1, 2]);
    let stereo = AudioMixer::wav_file_bytes(&PcmFormat { sample_rate: 22050, channels: 2, bits_per_sample: 16 }, &[1, 2]);
    let files = vec![
        Ok(good.clone()),
        Err(MixerError::FileNotFound("b.wav: missing".to_string())),
        Ok(stereo.clone()),
    ];
    match mixer.mix_wav_images(files, &format, 0) {
        Err(MixerError::FileNotFound(m)) => assert_eq!(m, "b.wav: missing"),
        other => panic!("unexpected {:?}", other),
    }
    match mixer.mix_wav_images(vec![Ok(good.clone()), Ok(stereo), Ok(vec![0u8; 3])], &format, 0) {
        Err(MixerError::FormatMismatch(m)) => assert_eq!(m, "Channel mismatch: expected 1, got 2"),
        other => panic!("unexpected {:?}", other),
    }
    match AudioMixer::read_all_audio(vec![Ok(good), Ok(vec![0u8; 3])], &format) {
        Err(MixerError::InvalidWavHeader(m)) => assert_eq!(m, "File too short"),
        other => panic!("unexpected {:?}", other),
    }
}
