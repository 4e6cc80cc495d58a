use ring_buffer::{freeze, new};

fn idint<T: Copy>(x: &T) -> T {
    *x
}

#[test]
fn fresh_ringbuffer_len_is_0() {
    assert_eq!(new::<&str>(5).len(), 0);
}

#[test]
fn fresh_ringbuffer_peek_is_none() {
    assert_eq!(new::<&str>(23).peek_first(idint), None);
    assert_eq!(new::<bool>(3).peek_last(idint), None);
}

#[test]
fn fresh_ringbuffer_peek_when_filling() {
    let mut rb = new::<usize>(3);
    rb.push(3);
    assert_eq!(rb.peek_first(idint), Some(3));
    assert_eq!(rb.peek_last(idint), Some(3));
    rb.push(4);
    assert_eq!(rb.peek_first(idint), Some(3));
    assert_eq!(rb.peek_last(idint), Some(4));
    rb.push(5);
    assert_eq!(rb.peek_first(idint), Some(3));
    assert_eq!(rb.peek_last(idint), Some(5));
    rb.push(6);
    assert_eq!(rb.peek_first(idint), Some(4));
    assert_eq!(rb.peek_last(idint), Some(6));
    rb.push(7);
    assert_eq!(rb.peek_first(idint), Some(5));
    assert_eq!(rb.peek_last(idint), Some(7));
    rb.push(8);
    assert_eq!(rb.peek_first(idint), Some(6));
    assert_eq!(rb.peek_last(idint), Some(8));
    rb.push(9);
    assert_eq!(rb.peek_first(idint), Some(7));
    assert_eq!(rb.peek_last(idint), Some(9));
}

#[test]
fn ringbuffer_overwrites_when_pushing_enough() {
    let mut rb = new::<i32>(3);
    assert_eq!(rb.push(3), None);
    assert_eq!(rb.push(4), None);
    assert_eq!(rb.push(5), None);
    assert_eq!(rb.push(6), Some(3));
    assert_eq!(rb.push(7), Some(4));
}

#[test]
fn ringbuffer_freeze_and_thaw_overwrites_when_pushing_enough() {
    let mut rb = new::<i32>(3);
    assert_eq!(rb.push(3), None);
    assert_eq!(rb.push(4), None);
    let rbv = freeze(rb);
    assert_eq!(rbv.at(0), Some(3).as_ref());
    assert_eq!(rbv.at(1), Some(4).as_ref());
    assert_eq!(rbv.at(2), None);
    assert_eq!(rbv.at(3), None);
    let mut rb = rbv.thaw();
    assert_eq!(rb.push(5), None);
    assert_eq!(rb.push(6), Some(3));
    assert_eq!(rb.push(7), Some(4));
    let rbv = freeze(rb);
    assert_eq!(rbv.at(0), Some(5).as_ref());
    assert_eq!(rbv.at(1), Some(6).as_ref());
    assert_eq!(rbv.at(2), Some(7).as_ref());
    assert_eq!(rbv.at(3), None);
    // The capacity is out of a caller's reach: it can be read, not assigned.
    let rb = rbv.thaw();
    assert_eq!(rb.capacity(), 3);
}
