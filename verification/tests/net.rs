use kernel::net::e1000::{
    flag, link_speed, link_up, read_mac_address, reset_pending, ring_registers, setup_1000e,
    wrap_ring, LinkSpeed, Received, RingRegisters, RxHalf, Transmit, TxHalf, BUFFER_SIZE,
    RING_SIZE,
};
use kernel::net::{wait_for_connection, ConnectionStep, Next, Transfer, LISTEN_PORT};

#[test]
fn wrap_ring_goes_round() {
    assert_eq!(wrap_ring(0, 16), 1);
    assert_eq!(wrap_ring(14, 16), 15);
    assert_eq!(wrap_ring(15, 16), 0);
    assert_eq!(wrap_ring(7, 8), 0);
    assert_eq!(wrap_ring(0, 1), 0);
    assert_eq!(wrap_ring(16, 16), 1);
}

#[test]
fn mac_address_from_registers() {
    assert_eq!(
        read_mac_address(0x1200_5452, 0xffff_5634),
        [0x52, 0x54, 0x00, 0x12, 0x34, 0x56]
    );
    assert_eq!(read_mac_address(0, 0), [0; 6]);
    assert_eq!(read_mac_address(u32::MAX, u32::MAX), [0xff; 6]);
}

#[test]
fn flag_sets_and_clears() {
    assert_eq!(flag(0b1010, 0b0100, true), 0b1110);
    assert_eq!(flag(0b1110, 0b0100, false), 0b1010);
    assert_eq!(flag(0b1010, 0b0010, true), 0b1010);
    assert_eq!(flag(0b1010, 0b0101, false), 0b1010);
    assert_eq!(flag(u32::MAX, 1 << 31, false), u32::MAX >> 1);
    assert_eq!(flag(0, 0xc0, true), 0xc0);
}

#[test]
fn status_bits() {
    assert!(reset_pending(1 << 26));
    assert!(reset_pending(u32::MAX));
    assert!(!reset_pending(!(1 << 26)));
    assert!(link_up(2));
    assert!(link_up(0x83));
    assert!(!link_up(0x81));
    assert_eq!(link_speed(0), LinkSpeed::Mbps10);
    assert_eq!(link_speed(0x40), LinkSpeed::Mbps100);
    assert_eq!(link_speed(0x80), LinkSpeed::Mbps1000);
    assert_eq!(link_speed(0xc0), LinkSpeed::Mbps1000);
    assert_eq!(link_speed(0x143), LinkSpeed::Mbps100);
}

#[test]
fn ring_registers_split_the_address() {
    assert_eq!(
        ring_registers(0x1234_5678_9abc_def0, 16),
        RingRegisters { base_high: 0x1234_5678, base_low: 0x9abc_def0, length: 256 }
    );
    assert_eq!(
        ring_registers(0x1000, 16),
        RingRegisters { base_high: 0, base_low: 0x1000, length: 256 }
    );
}

#[test]
fn base_address_registers_are_checked() {
    assert_eq!(setup_1000e(0xfebc_0000, 0xc001), Some(0xfebc_0000));
    assert_eq!(setup_1000e(0xfebc_0008, 0xc001), Some(0xfebc_0000));
    assert_eq!(setup_1000e(0xfebc_00f8, 0xc001), Some(0xfebc_0000));
    assert_eq!(setup_1000e(0, 0xc001), None);
    assert_eq!(setup_1000e(0xfebc_0000, 0), None);
    assert_eq!(setup_1000e(0xfebc_0001, 0xc001), None);
    assert_eq!(setup_1000e(0xfebc_0000, 0xc000), None);
    assert_eq!(setup_1000e(0xfebc_0004, 0xc001), None);
    assert_eq!(setup_1000e(0xfebc_0002, 0xc001), None);
}

#[test]
fn receive_ring_takes_finished_descriptors() {
    let mut rx = RxHalf::new();
    assert!(!rx.can_read(0));
    assert!(rx.can_read(1));
    assert!(rx.can_read(3));
    assert!(!rx.can_read(2));
    assert_eq!(rx.read(0, 100, 2048), None);
    assert_eq!(rx.receive_index, 0);
    assert_eq!(rx.read(1, 100, 2048), Some(Received { slot: 0, len: 100, tail: 0 }));
    assert_eq!(rx.receive_index, 1);
    assert_eq!(rx.read(3, 3000, 2048), Some(Received { slot: 1, len: 2048, tail: 1 }));
    for _ in 2..16 {
        rx.read(1, 1, 1).unwrap();
    }
    assert_eq!(rx.receive_index, 0);
    assert_eq!(rx.read(1, 16384, usize::MAX), Some(Received { slot: 0, len: 16384, tail: 0 }));
}

#[test]
fn transmit_ring_fills_and_reclaims() {
    let mut tx = TxHalf::new();
    assert!(tx.can_write(0));
    for i in 0..RING_SIZE {
        assert_eq!(
            tx.write(60),
            Some(Transmit {
                slot: i,
                copy_len: 60,
                length: 60,
                command: 0b1011,
                tail: ((i + 1) % RING_SIZE) as u32
            })
        );
    }
    assert_eq!(tx.transmit_ring_free, 0);
    assert_eq!(tx.transmit_index, 0);
    assert_eq!(tx.write(60), None);
    assert!(!tx.can_write(0));
    assert!(tx.can_write(1));
    // nothing is done yet: keep asking
    assert!(tx.reclaim(0));
    assert_eq!(tx.transmit_ring_free, 0);
    // two descriptors are done, the third is not
    assert!(tx.reclaim(1));
    assert!(tx.reclaim(1));
    assert!(!tx.reclaim(0));
    assert_eq!(tx.transmit_ring_free, 2);
    assert_eq!(tx.transmit_clean_index, 2);
    assert_eq!(tx.write(10).unwrap().slot, 0);
    assert_eq!(tx.transmit_ring_free, 1);
}

#[test]
fn transmit_ring_reclaims_until_all_are_free() {
    let mut tx = TxHalf::new();
    for _ in 0..RING_SIZE {
        tx.write(1).unwrap();
    }
    for i in 1..RING_SIZE {
        assert!(tx.reclaim(0xff));
        assert_eq!(tx.transmit_ring_free, i);
    }
    assert!(!tx.reclaim(1));
    assert_eq!(tx, TxHalf::new());
}

#[test]
fn transmit_clamps_to_the_buffer() {
    let mut tx = TxHalf::new();
    let t = tx.write(BUFFER_SIZE).unwrap();
    assert_eq!(t.copy_len, BUFFER_SIZE);
    assert_eq!(t.length as usize, BUFFER_SIZE - 1);
    let t = tx.write(BUFFER_SIZE + 5).unwrap();
    assert_eq!(t.copy_len, BUFFER_SIZE);
    assert_eq!(t.length as usize, BUFFER_SIZE - 1);
    let t = tx.write(BUFFER_SIZE - 1).unwrap();
    assert_eq!(t.copy_len, BUFFER_SIZE - 1);
    assert_eq!(t.length as usize, BUFFER_SIZE - 1);
    let t = tx.write(0).unwrap();
    assert_eq!(t.copy_len, 0);
    assert_eq!(t.length, 0);
}

#[test]
fn receiving_halts_until_everything_is_there() {
    let mut transfer = Transfer::new(10);
    assert_eq!(transfer.remaining(), 10);
    assert_eq!(transfer.recv(0), Next::Halt);
    assert_eq!(transfer.recv(4), Next::Halt);
    assert_eq!(transfer.remaining(), 6);
    assert_eq!(transfer.recv(6), Next::Done);
    assert_eq!(transfer.remaining(), 0);
    assert_eq!(transfer, Transfer { total: 10, moved: 10 });
}

#[test]
fn sending_halts_when_the_connection_takes_nothing() {
    let mut transfer = Transfer::new(5);
    assert_eq!(transfer.send(0), Next::Halt);
    assert_eq!(transfer.remaining(), 5);
    assert_eq!(transfer.send(2), Next::Retry);
    assert_eq!(transfer.send(0), Next::Halt);
    assert_eq!(transfer.send(0), Next::Halt);
    assert_eq!(transfer.remaining(), 3);
    assert_eq!(transfer.send(3), Next::Done);
    assert_eq!(transfer, Transfer { total: 5, moved: 5 });
}

#[test]
fn sending_retries_at_once_after_a_part_was_taken() {
    let mut transfer = Transfer::new(3);
    assert_eq!(transfer.send(1), Next::Retry);
    assert_eq!(transfer.send(1), Next::Retry);
    assert_eq!(transfer.send(1), Next::Done);
}

#[test]
fn nothing_to_move_is_done_at_once() {
    assert_eq!(Transfer::new(0).send(0), Next::Done);
    assert_eq!(Transfer::new(0).recv(0), Next::Done);
    assert_eq!(Transfer::new(4).send(4), Next::Done);
}

#[test]
fn waiting_for_the_connection() {
    assert_eq!(
        wait_for_connection(false, false),
        ConnectionStep { listen: Some(1234), next: Next::Halt }
    );
    assert_eq!(wait_for_connection(true, false), ConnectionStep { listen: None, next: Next::Halt });
    assert_eq!(wait_for_connection(true, true), ConnectionStep { listen: None, next: Next::Done });
    assert_eq!(LISTEN_PORT, 1234);
}
