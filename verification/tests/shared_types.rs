use lpb::shared_types::{DbAction, Mode};
use lpb::unsafe_lib::topic::{command_sample, Counter, Response};
use lpb::serialization::{DBTransactionError, ParseConfigError, SerdeRotations};
use lpb::encoder_interface::GPIOConfigError;
use lpb::tracker::TrackerSetupError;

#[test]
fn wire_values() {
    assert_eq!(DbAction::New.int_value(), 110);
    assert_eq!(DbAction::Remove.int_value(), 111);
    assert_eq!(DbAction::Queue.int_value(), 112);
    assert_eq!(Mode::TorqueFree.int_value(), 10);
    assert_eq!(Mode::Fast.int_value(), 11);
    assert_eq!(Mode::Slow.int_value(), 12);
}

#[test]
fn command_samples() {
    assert_eq!(
        command_sample(7, Mode::Fast, Some(DbAction::Queue)),
        Counter { counter: 7, mode: 11, action: 112 }
    );
    assert_eq!(command_sample(0, Mode::TorqueFree, None), Counter { counter: 0, mode: 10, action: 0 });
    assert_eq!(Counter::default(), Counter { counter: 0, mode: 0, action: 0 });
    assert_eq!(Response::default().result, 0);
}

#[test]
fn error_messages() {
    assert_eq!(ParseConfigError.message(), "Could not parse configuration file");
    assert_eq!(DBTransactionError.message(), "Could not parse configuration file");
    assert_eq!(GPIOConfigError.message(), "Unable to setup GPIO");
    assert_eq!(TrackerSetupError.message(), "Could not setup tracker entity correctly");
}

#[test]
fn rotations_round_trip() {
    let r = SerdeRotations::new(vec![1, -2, 3]);
    assert_eq!(r.into_rotations(), vec![1, -2, 3]);
}
