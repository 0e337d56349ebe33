use catprint::device::{model_supports_compression, Device};
use catprint::protocol::{Command, FeedDirection, LatticeType};
use catprint::transmit::{chunk, write_mode, WriteMode, TX_UNIT};

#[test]
fn chunks_keep_every_byte_in_order() {
    for len in [0usize, 1, 19, 20, 21, 40, 45, 100] {
        for unit in [1usize, 3, 20] {
            let buffer: Vec<u8> = (0..len).map(|i| i as u8).collect();
            let units = chunk(&buffer, unit);
            assert_eq!(units.len(), (len + unit - 1) / unit);
            assert!(units.iter().all(|u| !u.is_empty() && u.len() <= unit));
            assert_eq!(units.concat(), buffer);
        }
    }
}

#[test]
fn chunk_sizes() {
    let buffer = vec![7u8; 45];
    let units = chunk(&buffer, 20);
    let sizes: Vec<usize> = units.iter().map(|u| u.len()).collect();
    assert_eq!(sizes, vec![20, 20, 5]);
    assert!(chunk(&[], 20).is_empty());
}

#[test]
fn write_mode_by_unit_count() {
    assert_eq!(write_mode(0), WriteMode::WithResponse);
    assert_eq!(write_mode(1), WriteMode::WithResponse);
    assert_eq!(write_mode(2), WriteMode::WithoutResponse);
}

#[test]
fn queue_appends_frames_in_order() {
    let mut dev = Device::new(true);
    assert!(dev.supports_compression());
    let feed = Command::Feed(FeedDirection::Forward, 10);
    let start = Command::MagicLattice(LatticeType::Start);
    dev.queue_command(feed);
    dev.queue_commands(&[start, feed]);
    let mut expected = feed.to_bytes();
    expected.extend(start.to_bytes());
    expected.extend(feed.to_bytes());
    let units = dev.chunks();
    assert_eq!(units.len(), (expected.len() + TX_UNIT - 1) / TX_UNIT);
    assert_eq!(units.concat(), expected);
    dev.clear();
    assert!(dev.chunks().is_empty());
    assert!(!Device::new(false).supports_compression());
}

#[test]
fn only_one_model_lacks_compression() {
    assert!(!model_supports_compression("MX10"));
    assert!(model_supports_compression("GB02"));
    assert!(model_supports_compression("MX1"));
    assert!(model_supports_compression("MX100"));
    assert!(model_supports_compression(""));
}
