use openmeters::channel::{publish_format, stereo_indices, ChannelPosition as Channel, StreamFormat};
use openmeters::channel::ChannelPosition::{
    FrontCenter, FrontLeft, FrontRight, Mono, RearLeft, RearRight, SideRight, Unknown,
};
use openmeters::registry::AudioChannel;

#[test]
fn channel_labels_read_back() {
    for channel in [
        AudioChannel::FrontLeft,
        AudioChannel::FrontRight,
        AudioChannel::FrontCenter,
        AudioChannel::LowFrequency,
        AudioChannel::RearLeft,
        AudioChannel::RearRight,
        AudioChannel::SideLeft,
        AudioChannel::SideRight,
        AudioChannel::Mono,
    ] {
        assert_eq!(AudioChannel::parse(channel.label()), Some(channel));
        assert_eq!(
            AudioChannel::parse(&channel.label().to_lowercase()),
            Some(channel)
        );
    }
    assert_eq!(AudioChannel::parse("AUX0"), None);
}

#[test]
fn fallback_layouts_follow_the_surround_bus() {
    assert_eq!(
        Channel::fallback(1),
        [Mono, Unknown, Unknown, Unknown, Unknown, Unknown, Unknown, Unknown]
    );
    assert_eq!(
        Channel::fallback(4),
        [FrontLeft, FrontRight, RearLeft, RearRight, Unknown, Unknown, Unknown, Unknown]
    );
    assert_eq!(
        Channel::fallback(5),
        [FrontLeft, FrontRight, FrontCenter, RearLeft, RearRight, Unknown, Unknown, Unknown]
    );
    assert_eq!(Channel::fallback(12), Channel::surround());
}

#[test]
fn normalised_layouts_are_distinct_and_settle() {
    let reported = [FrontLeft, FrontLeft, Unknown, SideRight, Mono, Mono, Mono, Mono];
    let once = Channel::normalize(4, reported);
    assert_eq!(
        once,
        [FrontLeft, FrontRight, RearLeft, SideRight, Unknown, Unknown, Unknown, Unknown]
    );
    assert_eq!(Channel::normalize(4, once), once);
    let stereo = Channel::normalize(2, [Unknown; 8]);
    assert_eq!(stereo_indices(2, &stereo), [0, 1]);
}

#[test]
fn published_formats_move_on_only_when_they_change() {
    let seed = StreamFormat::new(2, 48_000, 0, [Unknown; 8]);
    assert_eq!(seed.positions, Channel::fallback(2));
    let positions = Channel::fallback(2);
    let hint = publish_format(&seed, 2, 48_000, positions);
    assert_eq!(hint.generation, 1);
    assert_eq!(publish_format(&hint, 2, 48_000, positions), hint);
    let faster = publish_format(&hint, 2, 96_000, positions);
    assert_ne!(faster.generation, hint.generation);
    assert_eq!((faster.rate, faster.generation), (96_000, 2));

    let clamped = StreamFormat::new(0, 0, 7, [Unknown; 8]);
    assert_eq!((clamped.channels, clamped.rate), (1, 1));
    assert_eq!(clamped.positions[0], Mono);
    assert_eq!(StreamFormat::new(12, 44_100, 0, [Unknown; 8]).channels, 8);
}

#[test]
fn refilled_channels_take_conventional_positions() {
    let reported = [SideRight, SideRight, Unknown, Unknown, Unknown, Unknown, Unknown, Unknown];
    let layout = Channel::normalize(3, reported);
    assert_eq!(
        layout,
        [SideRight, FrontRight, FrontCenter, Unknown, Unknown, Unknown, Unknown, Unknown]
    );
    let fallback = Channel::fallback(3);
    assert!(layout[1..3].iter().all(|p| fallback[..3].contains(p)));
}
