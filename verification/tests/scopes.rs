use light_arena::{Allocator, MemoryArena, Region};
use std::mem;

const WORD: usize = mem::size_of::<usize>();

fn put_usize(allocator: &mut Allocator, slice: &Region, index: usize, value: usize) {
    allocator.write(slice, index * WORD, &value.to_le_bytes());
}

fn get_usize(allocator: &Allocator, slice: &Region, index: usize) -> usize {
    let bytes = allocator.read(slice, index * WORD, WORD);
    let mut word = [0u8; WORD];
    word.copy_from_slice(&bytes);
    usize::from_le_bytes(word)
}

fn put_u32(allocator: &mut Allocator, slice: &Region, index: usize, value: u32) {
    allocator.write(slice, index * 4, &value.to_le_bytes());
}

fn get_u32(allocator: &Allocator, slice: &Region, index: usize) -> u32 {
    let bytes = allocator.read(slice, index * 4, 4);
    u32::from_le_bytes([bytes[0], bytes[1], bytes[2], bytes[3]])
}

fn get_i32(allocator: &Allocator, value: &Region, at: usize) -> i32 {
    let bytes = allocator.read(value, at, 4);
    i32::from_le_bytes([bytes[0], bytes[1], bytes[2], bytes[3]])
}

#[test]
fn basic_usage() {
    let mut arena = MemoryArena::new(2);
    let mut allocator = arena.allocator();
    let x = allocator.alloc_value(&[0u8; 16 * WORD], mem::align_of::<[usize; 16]>());
    for i in 0..16 {
        put_usize(&mut allocator, &x, i, i);
    }

    for i in 0..16 {
        assert_eq!(get_usize(&allocator, &x, i), i);
    }
}

#[test]
fn buffer_reuse() {
    let mut arena = MemoryArena::new(2);
    let addr_a = {
        let mut allocator = arena.allocator();
        let x = allocator.alloc_value(&[0u8; 16 * WORD], mem::align_of::<[usize; 16]>());
        for i in 0..16 {
            put_usize(&mut allocator, &x, i, i);
        }

        for i in 0..16 {
            assert_eq!(get_usize(&allocator, &x, i), i);
        }
        let addr = x.addr;
        allocator.release();
        addr
    };
    let addr_b = {
        let mut allocator = arena.allocator();
        let x = allocator.alloc_value(&[0u8; 32 * WORD], mem::align_of::<[usize; 32]>());
        for i in 0..32 {
            put_usize(&mut allocator, &x, i, i * 2);
        }

        for i in 0..32 {
            assert_eq!(get_usize(&allocator, &x, i), i * 2);
        }
        let addr = x.addr;
        allocator.release();
        addr
    };
    assert_eq!(addr_a, addr_b);
}

#[test]
fn on_demand_alloc() {
    let mut arena = MemoryArena::new(1);
    let addr_a = {
        let mut allocator = arena.allocator();
        let x = allocator.alloc_value(&[0u8; 128 * 4], mem::align_of::<[u32; 128]>());
        for i in 0..128 {
            put_u32(&mut allocator, &x, i, i as u32);
        }

        for i in 0..128 {
            assert_eq!(get_u32(&allocator, &x, i), i as u32);
        }
        let addr = x.addr;
        allocator.release();
        addr
    };
    let addr_b = {
        let mut allocator = arena.allocator();
        let x = allocator.alloc_value(&[0u8; 128 * 4], mem::align_of::<[u32; 128]>());
        for i in 0..128 {
            put_u32(&mut allocator, &x, i, i as u32);
        }

        for i in 0..128 {
            assert_eq!(get_u32(&allocator, &x, i), i as u32);
        }
        let addr = x.addr;
        allocator.release();
        addr
    };
    let addr_c = {
        let mut allocator = arena.allocator();
        let y = allocator.alloc_value(&vec![0u8; 2 * 1024 * 1024], 1);
        let addr = y.addr;
        allocator.release();
        addr
    };
    assert_eq!(addr_a, addr_b);
    assert_ne!(addr_a, addr_c);
    assert_ne!(addr_b, addr_c);
}

// A value of 32 bytes that has to start on a multiple of 256: its size is
// rounded up to its alignment, so that it takes 256 bytes.
const FAT_ALIGN: usize = 256;
const FAT_SIZE: usize = 256;

#[test]
fn fat_align_struct() {
    assert_eq!(FAT_SIZE % FAT_ALIGN, 0);
    let mut arena = MemoryArena::new(1);
    let mut allocator = arena.allocator();
    let a = allocator.alloc_value(&[0u8; 4 * FAT_SIZE], FAT_ALIGN);
    assert_eq!(a.len, 4 * FAT_SIZE);
    assert_eq!(a.addr % FAT_ALIGN, 0);

    let b = allocator.alloc_value(&[0u8; 128], 1);

    let c = allocator.alloc_value(&[0u8; FAT_SIZE], FAT_ALIGN);
    assert_eq!(c.addr % FAT_ALIGN, 0);
    assert_eq!(c.addr - b.addr, 256);
}

#[test]
fn placement_alloc() {
    let mut arena = MemoryArena::new(16);
    let mut allocator = arena.allocator();
    let _b = allocator.alloc_value(&vec![0u8; 8 * 1024 * 1024], 1);
}

trait Eval {
    fn eval(&self, rhs: i32) -> i32;
}

#[derive(Copy, Clone)]
struct Add(i32);
impl Eval for Add {
    fn eval(&self, rhs: i32) -> i32 {
        self.0 + rhs
    }
}

#[derive(Copy, Clone)]
struct Subtract {
    x: i32,
}
impl Eval for Subtract {
    fn eval(&self, rhs: i32) -> i32 {
        self.x - rhs
    }
}

#[derive(Copy, Clone)]
struct Clamp {
    lo: i32,
    hi: i32,
}
impl Clamp {
    fn new(lo: i32, hi: i32) -> Clamp {
        Clamp { lo: lo, hi: hi }
    }
}
impl Eval for Clamp {
    fn eval(&self, rhs: i32) -> i32 {
        if rhs < self.lo {
            self.lo
        } else if rhs > self.hi {
            self.hi
        } else {
            rhs
        }
    }
}

#[derive(Copy, Clone)]
struct ShiftLeft;
impl Eval for ShiftLeft {
    fn eval(&self, rhs: i32) -> i32 {
        rhs << 1
    }
}

#[test]
fn trait_objects() {
    let mut arena = MemoryArena::new(2);
    let mut allocator = arena.allocator();
    let add_at = allocator.alloc_value(&Add(4).0.to_le_bytes(), mem::align_of::<Add>());
    let sub_at = allocator.alloc_value(&Subtract { x: 2 }.x.to_le_bytes(), mem::align_of::<Subtract>());
    let shl_at = allocator.alloc_value(&[], mem::align_of::<ShiftLeft>());
    let bounds = Clamp::new(-2, 3);
    let mut image = Vec::new();
    image.extend_from_slice(&bounds.lo.to_le_bytes());
    image.extend_from_slice(&bounds.hi.to_le_bytes());
    let clamp_at = allocator.alloc_value(&image, mem::align_of::<Clamp>());

    assert_eq!(shl_at.len, mem::size_of::<ShiftLeft>());
    let add_value = Add(get_i32(&allocator, &add_at, 0));
    let sub_value = Subtract { x: get_i32(&allocator, &sub_at, 0) };
    let shl_value = ShiftLeft;
    let clamp_value = Clamp::new(get_i32(&allocator, &clamp_at, 0), get_i32(&allocator, &clamp_at, 4));
    let add: &dyn Eval = &add_value;
    let sub: &dyn Eval = &sub_value;
    let shl: &dyn Eval = &shl_value;
    let clamp: &dyn Eval = &clamp_value;

    assert_eq!(add.eval(5), 4 + 5);
    assert_eq!(add.eval(sub.eval(8)), 2 - 8 + 4);
    assert_eq!(shl.eval(1), 1 << 1);
    assert_eq!(clamp.eval(4), 3);
    assert_eq!(clamp.eval(0), 0);
    assert_eq!(clamp.eval(-10), -2);
}

#[test]
fn dynamic_slice() {
    let mut arena = MemoryArena::new(2);
    let mut allocator = arena.allocator();
    let x = allocator.alloc_slice::<usize>(16);
    for i in 0..16 {
        put_usize(&mut allocator, &x, i, i);
    }

    for i in 0..16 {
        assert_eq!(get_usize(&allocator, &x, i), i);
    }

    let y = allocator.alloc_slice::<usize>(16);
    for i in 0..16 {
        put_usize(&mut allocator, &y, i, i);
    }

    for i in 0..16 {
        assert_eq!(get_usize(&allocator, &x, i), i);
    }
    for i in 0..16 {
        assert_eq!(get_usize(&allocator, &y, i), i);
    }
    assert_eq!(x.addr + std::mem::size_of::<usize>() * 16, y.addr);
}
