use plexy::aio::{CopyBuffer, CopyStep, TransferState};
use plexy::error::Error;

#[test]
fn copy_buffer_happy_path() {
    let mut buf = CopyBuffer::new(8);
    assert_eq!(CopyStep::Fill, buf.next_step());
    buf.on_read(5);
    assert!(!buf.read_done);
    assert_eq!(CopyStep::Write, buf.next_step());
    let progress = buf.on_write(5).expect("nonzero write");
    assert_eq!(5, progress);
    assert!(buf.need_flush);
    assert_eq!(CopyStep::Fill, buf.next_step());
    buf.start_fill();
    buf.on_read(0);
    assert!(buf.read_done);
    assert_eq!(CopyStep::FlushAndFinish(5), buf.next_step());
}

#[test]
fn copy_buffer_partial_writes() {
    let mut buf = CopyBuffer::new(16);
    buf.on_read(10);
    buf.on_write(4).unwrap();
    assert_eq!(CopyStep::Write, buf.next_step());
    // While the write is pending, a top-up read can grow the window.
    buf.on_read(16);
    buf.on_write(12).unwrap();
    assert_eq!(16, buf.amt);
    assert_eq!(buf.pos, buf.cap);
}

#[test]
fn copy_buffer_write_zero_is_fatal() {
    let mut buf = CopyBuffer::new(8);
    buf.on_read(3);
    assert!(matches!(buf.on_write(0), Err(Error::IOError(_))));
}

#[test]
fn copy_buffer_flush_before_yield() {
    let mut buf = CopyBuffer::new(8);
    buf.on_read(2);
    buf.on_write(2).unwrap();
    buf.start_fill();
    // The reader would block with unflushed bytes: flush first.
    assert!(buf.on_read_would_block());
    buf.on_flush();
    assert!(!buf.on_read_would_block());
}

#[test]
fn copy_buffer_graceful_cancel() {
    let mut buf = CopyBuffer::new(8);
    buf.on_read(4);
    buf.on_write(4).unwrap();
    assert_eq!(4, buf.on_close_signal());
}

#[test]
fn transfer_two_phase_shutdown() {
    let mut dir = TransferState::new(8);
    assert!(dir.result().is_none());
    dir.on_copy_complete(42);
    assert!(dir.result().is_none());
    dir.on_shutdown_complete();
    assert_eq!(Some(42), dir.result());
    // A finished direction keeps reporting its count.
    assert_eq!(Some(42), dir.result());
}
