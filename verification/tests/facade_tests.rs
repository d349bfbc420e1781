use mand_cluster::codec::{ClusterCommand, ClusterCommandStatus};
use mand_cluster::facade::{MandCluster, SETTLE_NANOS};
use mand_cluster::mock::MockCluster;

#[test]
fn settle_delay_is_twenty_nanoseconds() {
    assert_eq!(SETTLE_NANOS, 20);
}

#[test]
fn fresh_block_presents_metadata_and_zeroed_registers() {
    let c = MandCluster::new(4, 64, 32);
    assert_eq!(c.cores_count(), 4);
    assert_eq!(c.fixed_size(), 64);
    assert_eq!(c.fixed_integer_size(), 32);
    assert_eq!(c.command(), 0);
    assert_eq!(c.command_status(), 0);
    assert_eq!(c.core_address(), 0);
    assert_eq!(c.cores_busy_flags(), 0);
    assert_eq!(c.cores_valid_flags(), 0);
    assert_eq!(c.core_result(), 0);
    assert_eq!(c.core_busy(), 0);
    assert_eq!(c.core_valid(), 0);
    assert_eq!(c.core_itterations_max(), 0);
    assert_eq!(c.core_x(), 0);
    assert_eq!(c.core_y(), 0);
}

#[test]
fn loads_latch_into_their_registers() {
    let mut c = MandCluster::new(8, 64, 32);
    c.load_command(2);
    assert_eq!(c.command(), 2);
    c.load_core_address(5);
    assert_eq!(c.core_address(), 5);
    c.load_core_x(-77);
    assert_eq!(c.core_x(), -77);
    c.load_core_y(i128::MIN);
    assert_eq!(c.core_y(), i128::MIN);
    c.load_core_itterations_max(1_000_000);
    assert_eq!(c.core_itterations_max(), 1_000_000);
    // Loads touch only their own register.
    assert_eq!(c.command(), 2);
    assert_eq!(c.cores_busy_flags(), 0);
}

#[test]
fn mock_nop_succeeds() {
    let mut m = MockCluster::new(4, 64, 32);
    m.load_command(ClusterCommand::NOP.encode());
    assert_eq!(m.command_status(), ClusterCommandStatus::Success.encode());
}

#[test]
fn mock_rejects_unknown_command_words() {
    let mut m = MockCluster::new(4, 64, 32);
    m.load_command(9);
    assert_eq!(
        m.command_status(),
        ClusterCommandStatus::InvalidCommand.encode()
    );
}

#[test]
fn mock_rejects_core_addresses_beyond_the_count() {
    let mut m = MockCluster::new(4, 64, 32);
    m.load_core_address(7);
    m.load_command(ClusterCommand::Start.encode());
    assert_eq!(
        m.command_status(),
        ClusterCommandStatus::InvalidCore.encode()
    );
}

#[test]
fn mock_start_marks_the_core_busy_and_rejects_a_second_start() {
    let mut m = MockCluster::new(4, 64, 32);
    m.load_core_address(2);
    m.load_core_x(1);
    m.load_core_y(2);
    m.load_core_itterations_max(100);
    m.load_command(ClusterCommand::Start.encode());
    assert_eq!(m.command_status(), ClusterCommandStatus::Success.encode());
    assert_eq!(m.cores_busy_flags(), 0b100);
    m.load_command(ClusterCommand::Start.encode());
    assert_eq!(m.command_status(), ClusterCommandStatus::CoreBusy.encode());
}

#[test]
fn mock_load_result_without_valid_bit_reports_after_reset() {
    let mut m = MockCluster::new(4, 64, 32);
    m.load_core_address(1);
    m.load_command(ClusterCommand::LoadResult.encode());
    assert_eq!(
        m.command_status(),
        ClusterCommandStatus::AfterReset.encode()
    );
}

#[test]
fn mock_load_result_moves_the_scripted_result() {
    let mut m = MockCluster::new(4, 64, 32);
    m.complete_core(3, true, 4242);
    m.load_core_address(3);
    m.load_command(ClusterCommand::LoadResult.encode());
    assert_eq!(m.command_status(), ClusterCommandStatus::Success.encode());
    assert_eq!(m.core_result(), 4242);
}

#[test]
fn mock_reset_clears_busy_and_valid_bits() {
    let mut m = MockCluster::new(4, 64, 32);
    m.load_core_address(0);
    m.load_command(ClusterCommand::Start.encode());
    m.complete_core(0, true, 1);
    assert_eq!(m.cores_valid_flags() & 1, 1);
    m.load_core_address(0);
    m.load_command(ClusterCommand::Reset.encode());
    assert_eq!(m.command_status(), ClusterCommandStatus::Success.encode());
    assert_eq!(m.cores_busy_flags(), 0);
    assert_eq!(m.cores_valid_flags(), 0);
}
