use tircorder::consumer::{consumer_step, ConsumerAction, ConsumerEvent};

fn bv(s: &str) -> Vec<u8> {
    s.as_bytes().to_vec()
}

#[test]
fn received_wav_is_converted_to_flac_target() {
    let action = consumer_step(false, ConsumerEvent::Received(bv("rec/sample.wav")));
    match action {
        ConsumerAction::Convert(input, output) => {
            assert_eq!(input, bv("rec/sample.wav"));
            assert_eq!(output, bv("rec/sample.flac"));
        }
        _ => panic!("a wav file must be converted"),
    }
}

#[test]
fn received_wav_upper_case_is_converted_too() {
    let action = consumer_step(false, ConsumerEvent::Received(bv("rec/LOUD.WAV")));
    match action {
        ConsumerAction::Convert(input, output) => {
            assert_eq!(input, bv("rec/LOUD.WAV"));
            assert_eq!(output, bv("rec/LOUD.flac"));
        }
        _ => panic!("a wav file must be converted whatever its case"),
    }
}

#[test]
fn non_wav_items_are_discarded_silently() {
    let action = consumer_step(false, ConsumerEvent::Received(bv("rec/sample.mp3")));
    assert!(matches!(action, ConsumerAction::Ignore));
    let action = consumer_step(false, ConsumerEvent::Received(bv("no_extension")));
    assert!(matches!(action, ConsumerAction::Ignore));
}

#[test]
fn timeouts_are_no_error() {
    let action = consumer_step(false, ConsumerEvent::TimedOut);
    assert!(matches!(action, ConsumerAction::Ignore));
}

#[test]
fn shutdown_and_disconnect_stop_the_worker() {
    let action = consumer_step(true, ConsumerEvent::TimedOut);
    assert!(matches!(action, ConsumerAction::Stop));
    let action = consumer_step(true, ConsumerEvent::Received(bv("rec/sample.wav")));
    assert!(matches!(action, ConsumerAction::Stop));
    let action = consumer_step(false, ConsumerEvent::Disconnected);
    assert!(matches!(action, ConsumerAction::Stop));
}
