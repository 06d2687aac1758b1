use cloud_lights::buffer::{double_buff_size, halve_buff_size, new_buff_size, Buffer};

#[test]
fn new_buffer_is_empty() {
    let b: Buffer<f32> = Buffer::new(5);
    assert_eq!(b.cap(), 5);
    assert_eq!(b.last(), None);
    assert!(b.to_vec().is_empty());
}

#[test]
fn new_fill_holds_copies() {
    let b: Buffer<f32> = Buffer::new_fill(1.0, 4);
    assert_eq!(b.cap(), 4);
    assert_eq!(b.to_vec(), vec![1.0f32, 1.0, 1.0, 1.0]);
    assert_eq!(b.last(), Some(1.0));
}

#[test]
fn add_grows_until_one_below_size() {
    let mut b: Buffer<u32> = Buffer::new(3);
    b.add(1);
    assert_eq!(b.to_vec(), vec![1]);
    b.add(2);
    assert_eq!(b.to_vec(), vec![1, 2]);
    b.add(3);
    assert_eq!(b.to_vec(), vec![2, 3]);
    assert_eq!(b.cap(), 3);
}

#[test]
fn add_to_bigger_buffer_keeps_recent_values() {
    let mut b: Buffer<u32> = Buffer::new(4);
    for v in 1..=6u32 {
        b.add(v);
    }
    assert_eq!(b.to_vec(), vec![4, 5, 6]);
    assert_eq!(b.last(), Some(6));
}

#[test]
fn full_buffer_slides() {
    let mut b: Buffer<f32> = Buffer::new_fill(1.0, 3);
    b.add(2.0);
    assert_eq!(b.to_vec(), vec![1.0f32, 1.0, 2.0]);
    b.add(3.0);
    assert_eq!(b.to_vec(), vec![1.0f32, 2.0, 3.0]);
    b.add(4.0);
    assert_eq!(b.to_vec(), vec![2.0f32, 3.0, 4.0]);
    assert_eq!(b.last(), Some(4.0));
}

#[test]
fn add_to_empty_buffer_of_size_one_leaves_it_empty() {
    let mut b: Buffer<u8> = Buffer::new(1);
    b.add(9);
    assert_eq!(b.last(), None);
    let mut z: Buffer<u8> = Buffer::new(0);
    z.add(9);
    assert_eq!(z.last(), None);
}

#[test]
fn add_then_last_gives_the_value() {
    let mut b: Buffer<u8> = Buffer::new_fill(0, 1);
    b.add(9);
    assert_eq!(b.last(), Some(9));
    assert_eq!(b.to_vec(), vec![9]);
}

#[test]
fn shrinking_keeps_oldest_values() {
    let mut b: Buffer<u32> = Buffer::new(10);
    for v in 1..=6u32 {
        b.add(v);
    }
    new_buff_size(3, &mut b);
    assert_eq!(b.cap(), 3);
    assert_eq!(b.to_vec(), vec![1, 2, 3]);
}

#[test]
fn growing_keeps_values() {
    let mut b: Buffer<u32> = Buffer::new_fill(7, 2);
    new_buff_size(6, &mut b);
    assert_eq!(b.cap(), 6);
    assert_eq!(b.to_vec(), vec![7, 7]);
    b.add(8);
    assert_eq!(b.to_vec(), vec![7, 7, 8]);
}

#[test]
fn halving_stops_at_four() {
    let mut b: Buffer<u32> = Buffer::new_fill(1, 100);
    halve_buff_size(&mut b);
    assert_eq!(b.cap(), 50);
    assert_eq!(b.to_vec().len(), 50);
    let mut small: Buffer<u32> = Buffer::new_fill(1, 6);
    halve_buff_size(&mut small);
    assert_eq!(small.cap(), 4);
    assert_eq!(small.to_vec().len(), 4);
    let mut tiny: Buffer<u32> = Buffer::new(2);
    halve_buff_size(&mut tiny);
    assert_eq!(tiny.cap(), 4);
}

#[test]
fn doubling_keeps_values() {
    let mut b: Buffer<u32> = Buffer::new_fill(3, 5);
    double_buff_size(&mut b);
    assert_eq!(b.cap(), 10);
    assert_eq!(b.to_vec(), vec![3, 3, 3, 3, 3]);
}

#[test]
fn double_then_halve_restores() {
    let mut b: Buffer<u32> = Buffer::new(8);
    for v in 1..=5u32 {
        b.add(v);
    }
    let before = b.to_vec();
    double_buff_size(&mut b);
    halve_buff_size(&mut b);
    assert_eq!(b.cap(), 8);
    assert_eq!(b.to_vec(), before);
}

#[test]
fn length_never_exceeds_size() {
    let mut b: Buffer<u32> = Buffer::new_fill(0, 7);
    for v in 0..30u32 {
        b.add(v);
        assert!(b.to_vec().len() <= b.cap());
        if v % 7 == 3 {
            halve_buff_size(&mut b);
        }
        if v % 11 == 5 {
            double_buff_size(&mut b);
        }
        assert!(b.to_vec().len() <= b.cap());
    }
}
