use vstd::prelude::*;
use circular_buffer::CircularBuffer;
use crate::coordinates::SnakeDirection;

verus! {

#[verifier::external_type_specification]
#[verifier::external_body]
#[verifier::reject_recursive_types(T)]
pub struct ExCircularBuffer<const N: usize, T>(CircularBuffer<N, T>);

/// Most bytes that wait between two ticks.
pub const INPUT_CAPACITY: usize = 1024;

/// The bytes that wait to be read, oldest first.
pub type InputBuffer = CircularBuffer<1024, u8>;

/// What an input buffer holds, front first.
pub uninterp spec fn buffered(b: InputBuffer) -> Seq<u8>;

/// Relies on `CircularBuffer::new`: a new buffer is empty.
#[verifier::external_body]
pub(crate) fn new_buffer() -> (r: InputBuffer)
    ensures
        buffered(r) == Seq::<u8>::empty(),
{
    CircularBuffer::new()
}

/// Relies on `CircularBuffer::len`: the number of bytes held, never above the capacity.
#[verifier::external_body]
fn buffer_len(b: &InputBuffer) -> (r: usize)
    ensures
        r == buffered(*b).len(),
        r <= INPUT_CAPACITY,
{
    b.len()
}

/// Relies on `CircularBuffer::push_back`: below capacity the byte is appended at the back.
#[verifier::external_body]
fn buffer_push_back(b: &mut InputBuffer, byte: u8)
    requires
        buffered(*old(b)).len() < INPUT_CAPACITY,
    ensures
        buffered(*final(b)) == buffered(*old(b)).push(byte),
{
    b.push_back(byte);
}

/// Relies on `CircularBuffer::get`: the byte at position `i` from the front, if there is one.
#[verifier::external_body]
fn buffer_get(b: &InputBuffer, i: usize) -> (r: Option<u8>)
    ensures
        i < buffered(*b).len() ==> r == Some(buffered(*b)[i as int]),
        i >= buffered(*b).len() ==> r.is_none(),
{
    b.get(i).copied()
}

/// Relies on `CircularBuffer::pop_front`: takes out the front byte, if there is one.
#[verifier::external_body]
fn buffer_pop_front(b: &mut InputBuffer) -> (r: Option<u8>)
    ensures
        buffered(*old(b)).len() > 0 ==> r == Some(buffered(*old(b))[0])
            && buffered(*final(b)) == buffered(*old(b)).drop_first(),
        buffered(*old(b)).len() == 0 ==> r.is_none() && buffered(*final(b)) == buffered(*old(b)),
{
    b.pop_front()
}

/// The bytes that can belong to an arrow key: escape, `[` and the four letters `A` to `D`.
pub open spec fn admitted(key: u8) -> bool {
    key == 27 || key == 91 || key == 65 || key == 66 || key == 67 || key == 68
}

/// The direction that the last byte of an arrow-key sequence names.
pub open spec fn arrow(key: u8) -> Option<SnakeDirection> {
    if key == 65 {
        Some(SnakeDirection::Up)
    } else if key == 66 {
        Some(SnakeDirection::Down)
    } else if key == 67 {
        Some(SnakeDirection::Right)
    } else if key == 68 {
        Some(SnakeDirection::Left)
    } else {
        None
    }
}

/// The turn that an arrow key asks of a snake moving in `current`: only a quarter turn,
/// to its left or to its right, is taken.
pub open spec fn turn(key: u8, current: SnakeDirection) -> Option<SnakeDirection> {
    match arrow(key) {
        Some(d) => if d.parallel(current) { None } else { Some(d) },
        None => None,
    }
}

/// Reading `bytes` for a snake moving in `current`: the direction to take and the bytes
/// left over. From the front, the first escape sequence `27 91 k` whose `k` is a turn
/// decides, and only its escape byte is taken out; every byte before it is dropped. With
/// no such sequence, bytes are dropped until fewer than three remain.
pub open spec fn resolve(bytes: Seq<u8>, current: SnakeDirection) -> (SnakeDirection, Seq<u8>)
    decreases bytes.len(),
{
    if bytes.len() < 3 {
        (current, bytes)
    } else if bytes[0] == 27 && bytes[1] == 91 && turn(bytes[2], current).is_some() {
        (turn(bytes[2], current).unwrap(), bytes.drop_first())
    } else {
        resolve(bytes.drop_first(), current)
    }
}

/// Reading keys never turns the snake back on itself: the direction read is never the
/// opposite of the current one.
pub proof fn lemma_no_reverse(bytes: Seq<u8>, current: SnakeDirection)
    ensures
        resolve(bytes, current).0 != current.opposite(),
    decreases bytes.len(),
{
    if bytes.len() >= 3 && !(bytes[0] == 27 && bytes[1] == 91 && turn(bytes[2], current).is_some()) {
        lemma_no_reverse(bytes.drop_first(), current);
    }
}

/// An arrow key that turns the snake to its left or to its right is always taken: the
/// sequence `27 91 key` at the front of the waiting bytes gives that direction, and only
/// its escape byte is used up.
pub proof fn lemma_turn_taken(key: u8, rest: Seq<u8>, current: SnakeDirection)
    requires
        arrow(key) is Some,
        !arrow(key).unwrap().parallel(current),
    ensures
        resolve(seq![27u8, 91u8, key] + rest, current) == (
        arrow(key).unwrap(),
        seq![91u8, key] + rest,
        ),
{
    let bytes = seq![27u8, 91u8, key] + rest;
    assert(bytes[0] == 27 && bytes[1] == 91 && bytes[2] == key);
    assert(bytes.drop_first() =~= seq![91u8, key] + rest);
}

/// An arrow key along the axis of travel is never taken.
pub proof fn lemma_parallel_ignored(key: u8, current: SnakeDirection)
    requires
        arrow(key) is Some,
        arrow(key).unwrap().parallel(current),
    ensures
        resolve(seq![27u8, 91u8, key], current) == (current, seq![91u8, key]),
{
    let bytes = seq![27u8, 91u8, key];
    assert(bytes.drop_first() =~= seq![91u8, key]);
    assert(resolve(bytes.drop_first(), current) == (current, bytes.drop_first()));
}

/// A full buffer takes no more bytes in.
pub proof fn lemma_full_drops(bytes: Seq<u8>, key: u8)
    requires
        bytes.len() == INPUT_CAPACITY,
    ensures
        after_key(bytes, key) == bytes,
{
}

/// The bytes of `bytes` that the buffer takes in, while it has room.
pub open spec fn after_key(bytes: Seq<u8>, key: u8) -> Seq<u8> {
    if admitted(key) && bytes.len() < INPUT_CAPACITY {
        bytes.push(key)
    } else {
        bytes
    }
}

/// Takes `key` in at the back of `buf` if it can belong to an arrow key and `buf` has room;
/// drops it otherwise.
pub fn push_key(buf: &mut InputBuffer, key: u8)
    ensures
        buffered(*final(buf)) == after_key(buffered(*old(buf)), key),
{
    match key {
        27 | 91 | 65 | 66 | 67 | 68 => {
            if buffer_len(buf) < INPUT_CAPACITY {
                buffer_push_back(buf, key);
            }
        },
        _ => {},
    }
}

/// The turn that `key` asks of a snake moving in `current`.
fn turn_for(key: u8, current: SnakeDirection) -> (r: Option<SnakeDirection>)
    ensures
        r == turn(key, current),
{
    let d = match key {
        65 => SnakeDirection::Up,
        66 => SnakeDirection::Down,
        67 => SnakeDirection::Right,
        68 => SnakeDirection::Left,
        _ => {
            return None;
        },
    };
    if d.is_horizontal() == current.is_horizontal() {
        None
    } else {
        Some(d)
    }
}

/// Reads `buf` for a snake moving in `current` (see `resolve`).
pub fn read_direction(buf: &mut InputBuffer, current: SnakeDirection) -> (r: SnakeDirection)
    ensures
        (r, buffered(*final(buf))) == resolve(buffered(*old(buf)), current),
{
    while buffer_len(buf) >= 3
        invariant
            resolve(buffered(*buf), current) == resolve(buffered(*old(buf)), current),
        decreases buffered(*buf).len(),
    {
        let b0 = buffer_get(buf, 0).unwrap();
        let b1 = buffer_get(buf, 1).unwrap();
        let b2 = buffer_get(buf, 2).unwrap();
        let mut found: Option<SnakeDirection> = None;
        if b0 == 27 && b1 == 91 {
            found = turn_for(b2, current);
        }
        buffer_pop_front(buf);
        if let Some(d) = found {
            return d;
        }
    }
    current
}

} // verus!
