use audio_visualizer_rs::audio::{
    absorb_packet, finish_decoding, track_sample_rate, AudioData, LoadError, PacketOutcome,
};

#[test]
fn test_audio_data_len() {
    let audio = AudioData {
        samples: vec![0.0_f32, 0.1, 0.2, 0.3].into_iter().map(f32::to_bits).collect(),
        sample_rate: 44100,
    };
    assert_eq!(audio.len(), 4);
    assert!(!audio.is_empty());
}

#[test]
fn empty_audio_is_empty() {
    let audio = AudioData { samples: vec![], sample_rate: 48000 };
    assert_eq!(audio.len(), 0);
    assert!(audio.is_empty());
}

#[test]
fn track_sample_rate_reports_each_failure() {
    assert_eq!(track_sample_rate(None), Err(LoadError::NoTrack));
    assert_eq!(track_sample_rate(Some(None)), Err(LoadError::UnknownSampleRate));
    assert_eq!(track_sample_rate(Some(Some(44100))), Ok(44100));
}

#[test]
fn load_error_messages() {
    assert_eq!(LoadError::NoTrack.message(), "No audio tracks found in file");
    assert_eq!(LoadError::UnknownSampleRate.message(), "Unknown sample rate");
    assert_eq!(LoadError::NoSamples.message(), "No audio samples decoded");
}

#[test]
fn decoding_stops_at_end_and_skips_bad_packets() {
    let mut decoded = vec![1, 2];
    assert!(absorb_packet(&mut decoded, PacketOutcome::Decoded(vec![3, 4])));
    assert!(absorb_packet(&mut decoded, PacketOutcome::Undecodable));
    assert!(absorb_packet(&mut decoded, PacketOutcome::Decoded(vec![])));
    assert!(absorb_packet(&mut decoded, PacketOutcome::Decoded(vec![5])));
    assert!(!absorb_packet(&mut decoded, PacketOutcome::EndOfStream));
    assert_eq!(decoded, vec![1, 2, 3, 4, 5]);
}

#[test]
fn nothing_decoded_is_an_error() {
    let r = finish_decoding(vec![], 44100);
    assert!(matches!(r, Err(LoadError::NoSamples)));
    let r = finish_decoding(vec![0.5_f32.to_bits()], 22050);
    assert!(r.is_ok());
    let audio = r.unwrap();
    assert_eq!(audio.samples, vec![0.5_f32.to_bits()]);
    assert_eq!(audio.sample_rate, 22050);
}
