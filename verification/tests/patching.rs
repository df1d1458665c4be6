//! Tests of the memory patcher and the profile runner on the modeled
//! span of the host's address space.

use dfpatch::memory::{page_base, read_le, safe_write, value_bytes, MemoryImage};
use dfpatch::profile::{profile_entries, Profile};
use dfpatch::runner::{run_hook, run_profile};
use dfpatch::values;

const CHANNEL_PAGE: usize = 0x08053000;
const BRIDGE_PAGE: usize = 0x08058000;
const PAGE_SIZE: usize = 0x1000;

fn fresh_page(base: usize) -> MemoryImage {
    MemoryImage { base, bytes: vec![0xAB; PAGE_SIZE] }
}

fn byte_at(mem: &MemoryImage, addr: usize) -> u8 {
    mem.bytes[addr - mem.base]
}

#[test]
fn value_bytes_little_endian() {
    assert_eq!(value_bytes(0x12345678), vec![0x78, 0x56, 0x34, 0x12]);
    assert_eq!(value_bytes(10), vec![10, 0, 0, 0]);
    assert_eq!(value_bytes(0), vec![0, 0, 0, 0]);
    assert_eq!(value_bytes(u32::MAX), vec![0xFF, 0xFF, 0xFF, 0xFF]);
}

#[test]
fn page_base_masks_offset() {
    assert_eq!(page_base(0x0805380D, PAGE_SIZE), CHANNEL_PAGE);
    assert_eq!(page_base(CHANNEL_PAGE, PAGE_SIZE), CHANNEL_PAGE);
    assert_eq!(page_base(0x08053FFF, PAGE_SIZE), CHANNEL_PAGE);
}

#[test]
fn write_then_read_round_trip() {
    let mut mem = fresh_page(CHANNEL_PAGE);
    let addr = 0x0805380D;
    let r = safe_write(&mut mem, addr, 0xDEADBEEF, 4, PAGE_SIZE, true);
    assert!(r.ok);
    assert_eq!(r.page_start, CHANNEL_PAGE);
    assert_eq!(read_le(&mem, addr, 4), 0xDEADBEEF);
}

#[test]
fn write_touches_only_its_slot() {
    let mut mem = fresh_page(CHANNEL_PAGE);
    let addr = 0x0805380D;
    let r = safe_write(&mut mem, addr, 0x11223344, 4, PAGE_SIZE, true);
    assert!(r.ok);
    assert_eq!(byte_at(&mem, addr), 0x44);
    assert_eq!(byte_at(&mem, addr + 1), 0x33);
    assert_eq!(byte_at(&mem, addr + 2), 0x22);
    assert_eq!(byte_at(&mem, addr + 3), 0x11);
    assert_eq!(byte_at(&mem, addr - 1), 0xAB);
    assert_eq!(byte_at(&mem, addr + 4), 0xAB);
    for i in 0..PAGE_SIZE {
        let a = CHANNEL_PAGE + i;
        if !(addr <= a && a < addr + 4) {
            assert_eq!(mem.bytes[i], 0xAB);
        }
    }
}

#[test]
fn narrow_width_writes_low_bytes() {
    let mut mem = fresh_page(CHANNEL_PAGE);
    let addr = CHANNEL_PAGE + 0x100;
    let r = safe_write(&mut mem, addr, 0xA1B2C3D4, 2, PAGE_SIZE, true);
    assert!(r.ok);
    assert_eq!(byte_at(&mem, addr), 0xD4);
    assert_eq!(byte_at(&mem, addr + 1), 0xC3);
    assert_eq!(byte_at(&mem, addr + 2), 0xAB);
    assert_eq!(read_le(&mem, addr, 2), 0xC3D4);
}

#[test]
fn failed_protection_change_writes_nothing() {
    let mut mem = fresh_page(CHANNEL_PAGE);
    let addr = 0x0805380D;
    let r = safe_write(&mut mem, addr, 0xDEADBEEF, 4, PAGE_SIZE, false);
    assert!(!r.ok);
    assert_eq!(r.page_start, CHANNEL_PAGE);
    for i in 0..PAGE_SIZE {
        assert_eq!(mem.bytes[i], 0xAB);
    }
}

#[test]
fn profile_tables_in_fixed_order() {
    let v = values::derive(10);
    let channel = profile_entries(Profile::Channel, &v);
    let addrs: Vec<usize> = channel.iter().map(|e| e.addr).collect();
    assert_eq!(addrs, vec![0x0805380D, 0x0805381C, 0x08053829, 0x080538A4, 0x08053964]);
    let values: Vec<u32> = channel.iter().map(|e| e.value).collect();
    assert_eq!(values, vec![13108164, 10, 9, 10, 9]);
    assert!(channel.iter().all(|e| e.width == 4));

    let bridge = profile_entries(Profile::Bridge, &v);
    let addrs: Vec<usize> = bridge.iter().map(|e| e.addr).collect();
    assert_eq!(addrs, vec![0x08058207, 0x08058216, 0x08058223, 0x0805829E, 0x0805835E]);
    let values: Vec<u32> = bridge.iter().map(|e| e.value).collect();
    assert_eq!(values, vec![13108164, 10, 9, 10, 9]);
}

#[test]
fn run_profile_continues_past_failures() {
    let v = values::derive(10);
    let entries = profile_entries(Profile::Channel, &v);
    let mut mem = fresh_page(CHANNEL_PAGE);
    let prot = vec![true, false, true, true, true];
    let failed = run_profile(&mut mem, &entries, &prot, PAGE_SIZE);
    assert_eq!(failed, vec![CHANNEL_PAGE]);
    // the failed entry's slot keeps its old bytes
    for k in 0..4 {
        assert_eq!(byte_at(&mem, 0x0805381C + k), 0xAB);
    }
    // the entries around it are still applied
    assert_eq!(read_le(&mem, 0x0805380D, 4), 13108164);
    assert_eq!(read_le(&mem, 0x08053829, 4), 9);
    assert_eq!(read_le(&mem, 0x080538A4, 4), 10);
    assert_eq!(read_le(&mem, 0x08053964, 4), 9);
}

#[test]
fn applying_twice_equals_applying_once() {
    let v = values::derive(7);
    let entries = profile_entries(Profile::Channel, &v);
    let prot = vec![true; 5];
    let mut once = fresh_page(CHANNEL_PAGE);
    run_profile(&mut once, &entries, &prot, PAGE_SIZE);
    let mut twice = fresh_page(CHANNEL_PAGE);
    run_profile(&mut twice, &entries, &prot, PAGE_SIZE);
    run_profile(&mut twice, &entries, &prot, PAGE_SIZE);
    assert_eq!(once.bytes, twice.bytes);
}

#[test]
fn hook_end_to_end_channel() {
    let mut mem = fresh_page(CHANNEL_PAGE);
    let prot = vec![true; 5];
    let text = b"10".to_vec();
    let r = run_hook(Profile::Channel, Some(&text), &mut mem, &prot, PAGE_SIZE);
    assert!(r.patched);
    assert_eq!(r.client_num, 10);
    assert!(r.failed_pages.is_empty());
    // scaled limit = 4 + 0x140060 * 10
    assert_eq!(read_le(&mem, 0x0805380D, 4), 13108164);
    assert_eq!(read_le(&mem, 0x0805381C, 4), 10);
    assert_eq!(read_le(&mem, 0x08053829, 4), 9);
    assert_eq!(read_le(&mem, 0x080538A4, 4), 10);
    assert_eq!(read_le(&mem, 0x08053964, 4), 9);
    // nothing outside the five slots moved
    let slots: Vec<usize> = vec![0x0805380D, 0x0805381C, 0x08053829, 0x080538A4, 0x08053964];
    for i in 0..PAGE_SIZE {
        let a = CHANNEL_PAGE + i;
        if !slots.iter().any(|&s| s <= a && a < s + 4) {
            assert_eq!(mem.bytes[i], 0xAB);
        }
    }
}

#[test]
fn hook_end_to_end_bridge() {
    let mut mem = fresh_page(BRIDGE_PAGE);
    let prot = vec![true; 5];
    let text = b"10".to_vec();
    let r = run_hook(Profile::Bridge, Some(&text), &mut mem, &prot, PAGE_SIZE);
    assert!(r.patched);
    assert_eq!(r.client_num, 10);
    assert_eq!(read_le(&mem, 0x08058207, 4), 13108164);
    assert_eq!(read_le(&mem, 0x08058216, 4), 10);
    assert_eq!(read_le(&mem, 0x08058223, 4), 9);
    assert_eq!(read_le(&mem, 0x0805829E, 4), 10);
    assert_eq!(read_le(&mem, 0x0805835E, 4), 9);
}

#[test]
fn hook_floor_case_is_a_no_op() {
    let mut mem = fresh_page(CHANNEL_PAGE);
    let prot = vec![true; 5];
    let text = b"2".to_vec();
    let r = run_hook(Profile::Channel, Some(&text), &mut mem, &prot, PAGE_SIZE);
    assert!(!r.patched);
    assert!(r.failed_pages.is_empty());
    for i in 0..PAGE_SIZE {
        assert_eq!(mem.bytes[i], 0xAB);
    }
}

#[test]
fn hook_unset_matches_floor_case() {
    let mut floor = fresh_page(CHANNEL_PAGE);
    let mut unset = fresh_page(CHANNEL_PAGE);
    let prot = vec![true; 5];
    let text = b"2".to_vec();
    let rf = run_hook(Profile::Channel, Some(&text), &mut floor, &prot, PAGE_SIZE);
    let ru = run_hook(Profile::Channel, None, &mut unset, &prot, PAGE_SIZE);
    assert_eq!(rf.patched, ru.patched);
    assert_eq!(rf.failed_pages, ru.failed_pages);
    assert_eq!(floor.bytes, unset.bytes);
    for i in 0..PAGE_SIZE {
        assert_eq!(unset.bytes[i], 0xAB);
    }
}

#[test]
fn hook_garbage_text_is_a_no_op() {
    let mut mem = fresh_page(CHANNEL_PAGE);
    let prot = vec![true; 5];
    let text = b"many".to_vec();
    let r = run_hook(Profile::Channel, Some(&text), &mut mem, &prot, PAGE_SIZE);
    assert!(!r.patched);
    for i in 0..PAGE_SIZE {
        assert_eq!(mem.bytes[i], 0xAB);
    }
}
