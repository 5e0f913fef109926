//! What the host's network interface is asked and what its answers mean.

use vstd::prelude::*;

verus! {

/// Bytes of an interface name, with the zero byte that ends it.
pub const IFNAMSIZ: usize = 16;

/// The longest frame that is read.
pub const TAP_FRAME_MAX: usize = 2048;

/// The bytes of an interface name, filled up with zeros; nothing where it is too long.
pub fn interface_name(name: &str) -> (r: Option<[u8; 16]>)
    ensures
        ({
            let b = vstd::utf8::encode_utf8(name@);
            match r {
                None => b.len() >= IFNAMSIZ,
                Some(a) => b.len() < IFNAMSIZ && a@ == Seq::new(
                    16,
                    |i: int|
                        if i < b.len() {
                            b[i]
                        } else {
                            0
                        },
                ),
            }
        }),
{
    let b = name.as_bytes();
    if b.len() >= IFNAMSIZ {
        return None;
    }
    let mut a: [u8; 16] = [0, 0, 0, 0, 0, 0, 0, 0, 0, 0, 0, 0, 0, 0, 0, 0];
    let mut i: usize = 0;
    while i < b.len()
        invariant
            i <= b@.len(),
            b@.len() < 16,
            forall|j: int| 0 <= j < i ==> a@[j] == b@[j],
            forall|j: int| i <= j < 16 ==> a@[j] == 0,
        decreases b@.len() - i,
    {
        a[i] = b[i];
        i += 1;
    }
    assert(a@ =~= Seq::new(16, |i: int| if i < b@.len() { b@[i] } else { 0 }));
    Some(a)
}

/// What came of sending a frame.
#[derive(Debug, Clone, Copy)]
pub enum Sent {
    Done,
    Failed,
}

/// What sending a frame came to, given the number that the system call returned and whether it
/// failed only because the interface was busy. A frame that a busy interface does not take is
/// dropped, as on a wire.
pub fn after_write(n: i64, busy: bool) -> (r: Sent)
    ensures
        r == if n >= 0 || busy {
            Sent::Done
        } else {
            Sent::Failed
        },
{
    if n < 0 && !busy {
        Sent::Failed
    } else {
        Sent::Done
    }
}

/// What came of asking for a frame.
#[derive(Debug, Clone, Copy)]
pub enum Received {
    /// A frame of that many bytes.
    Frame(usize),
    Nothing,
    Failed,
}

/// What asking for a frame came to, given the number that the system call returned and whether
/// it failed only because there was none.
pub fn after_read(n: i64, busy: bool) -> (r: Received)
    ensures
        r == if n > 0 {
            Received::Frame(n as usize)
        } else if n == 0 || busy {
            Received::Nothing
        } else {
            Received::Failed
        },
{
    if n > 0 {
        Received::Frame(n as usize)
    } else if n == 0 || busy {
        Received::Nothing
    } else {
        Received::Failed
    }
}

} // verus!
