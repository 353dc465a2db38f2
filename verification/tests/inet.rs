use mc_protocol::data::DataError;
use mc_protocol::inet::{after_read, InetError, ReadOutcome, ReadProgress};

#[test]
fn read_is_done_once_every_byte_arrived() {
    assert_eq!(after_read(4, ReadOutcome::Bytes(4)), ReadProgress::Done);
    assert_eq!(after_read(4, ReadOutcome::Bytes(9)), ReadProgress::Done);
    assert_eq!(after_read(0, ReadOutcome::Bytes(0)), ReadProgress::Done);
}

#[test]
fn read_goes_on_while_bytes_are_missing() {
    assert_eq!(after_read(4, ReadOutcome::Bytes(1)), ReadProgress::More(3));
    assert_eq!(after_read(4, ReadOutcome::Bytes(3)), ReadProgress::More(1));
}

#[test]
fn zero_bytes_mean_that_the_peer_shut_down() {
    assert_eq!(
        after_read(4, ReadOutcome::Bytes(0)),
        ReadProgress::Fault(DataError::Inet(InetError::ConnectionClosed))
    );
    assert_eq!(
        after_read(4, ReadOutcome::Closed),
        ReadProgress::Fault(DataError::Inet(InetError::ConnectionClosed))
    );
}

#[test]
fn other_faults_are_read_errors() {
    assert_eq!(after_read(4, ReadOutcome::Failed), ReadProgress::Fault(DataError::ReadError));
    assert_eq!(after_read(0, ReadOutcome::Failed), ReadProgress::Fault(DataError::ReadError));
}
