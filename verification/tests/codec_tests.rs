use mand_cluster::codec::{ClusterCommand, ClusterCommandStatus};

#[test]
fn command_encodings_are_fixed() {
    assert_eq!(ClusterCommand::NOP.encode(), 0);
    assert_eq!(ClusterCommand::LoadResult.encode(), 1);
    assert_eq!(ClusterCommand::Start.encode(), 2);
    assert_eq!(ClusterCommand::Reset.encode(), 3);
}

#[test]
fn status_encodings_are_fixed() {
    assert_eq!(ClusterCommandStatus::Success.encode(), 0);
    assert_eq!(ClusterCommandStatus::ClusterBusy.encode(), 1);
    assert_eq!(ClusterCommandStatus::InvalidCommand.encode(), 2);
    assert_eq!(ClusterCommandStatus::InvalidCore.encode(), 3);
    assert_eq!(ClusterCommandStatus::CoreBusy.encode(), 4);
    assert_eq!(ClusterCommandStatus::AfterReset.encode(), 5);
    assert_eq!(ClusterCommandStatus::UnknownError.encode(), 6);
}

#[test]
fn command_encode_decode_round_trip() {
    let commands = [
        ClusterCommand::NOP,
        ClusterCommand::LoadResult,
        ClusterCommand::Start,
        ClusterCommand::Reset,
    ];
    for c in commands {
        assert_eq!(ClusterCommand::decode(c.encode()), Some(c));
    }
}

#[test]
fn status_encode_decode_round_trip() {
    let statuses = [
        ClusterCommandStatus::Success,
        ClusterCommandStatus::ClusterBusy,
        ClusterCommandStatus::InvalidCommand,
        ClusterCommandStatus::InvalidCore,
        ClusterCommandStatus::CoreBusy,
        ClusterCommandStatus::AfterReset,
        ClusterCommandStatus::UnknownError,
    ];
    for s in statuses {
        assert_eq!(ClusterCommandStatus::decode(s.encode()), Some(s));
    }
}

#[test]
fn command_decode_encode_round_trip() {
    for v in 0u64..4 {
        assert_eq!(ClusterCommand::decode(v).unwrap().encode(), v);
    }
}

#[test]
fn status_decode_encode_round_trip() {
    for v in 0u64..7 {
        assert_eq!(ClusterCommandStatus::decode(v).unwrap().encode(), v);
    }
}

#[test]
fn words_beyond_the_tables_decode_to_none() {
    assert_eq!(ClusterCommand::decode(4), None);
    assert_eq!(ClusterCommand::decode(99), None);
    assert_eq!(ClusterCommandStatus::decode(7), None);
    assert_eq!(ClusterCommandStatus::decode(u64::MAX), None);
}
