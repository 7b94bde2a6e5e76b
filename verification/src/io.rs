//! The user-side console handles. The device behind them is outside this
//! crate; what is verified is the line editing a read performs and the
//! bytes a write hands the device.

use vstd::prelude::*;
use vstd::string::StringSliceAdditionalSpecFns;

verus! {

/// The backspace control byte.
pub const KEY_BACKSPACE: u8 = 8;

/// The delete control byte, treated as backspace.
pub const KEY_DELETE: u8 = 127;

/// Whether a byte ends the line being read.
pub open spec fn is_line_break(k: u8) -> bool {
    k == 10 || k == 13
}

/// Whether a byte rubs the previous character out.
pub open spec fn is_erase(k: u8) -> bool {
    k == KEY_BACKSPACE || k == KEY_DELETE
}

/// The line that editing produces from `keys`, starting from the already
/// accepted bytes `acc`: a line break ends the line, an erase byte drops
/// the last accepted byte, anything else is accepted; input running out
/// ends the line too.
pub open spec fn edit_line(acc: Seq<u8>, keys: Seq<u8>) -> Seq<u8>
    decreases keys.len(),
{
    if keys.len() == 0 {
        acc
    } else if is_line_break(keys[0]) {
        acc
    } else if is_erase(keys[0]) {
        edit_line(
            if acc.len() > 0 {
                acc.drop_last()
            } else {
                acc
            },
            keys.drop_first(),
        )
    } else {
        edit_line(acc.push(keys[0]), keys.drop_first())
    }
}

/// The sequence a serial console is sent to rub one character out: step
/// back, blank the cell, step back again.
pub fn backspace() -> (r: [u8; 3])
    ensures
        r@ == seq![KEY_BACKSPACE, 0x20u8, KEY_BACKSPACE],
{
    let r = [KEY_BACKSPACE, 0x20, KEY_BACKSPACE];
    proof {
        assert(r@ =~= seq![KEY_BACKSPACE, 0x20u8, KEY_BACKSPACE]);
    }
    r
}

/// The read handle on standard input.
pub struct Stdin;

/// The write handle on standard output: what is written accumulates here
/// until the surrounding program drains it to the device.
pub struct Stdout {
    /// Bytes written and not yet drained.
    pub written: Vec<u8>,
}

/// The write handle on standard error.
pub struct Stderr {
    /// Bytes written and not yet drained.
    pub written: Vec<u8>,
}

impl Stdin {
    fn new() -> (r: Stdin) {
        Stdin
    }

    /// Read one line from the given input bytes: accept until the first
    /// line break, erasing on backspace or delete. The device hands the
    /// bytes over; the editing is what this function decides.
    pub fn read_line(&self, keys: &Vec<u8>) -> (r: Vec<u8>)
        ensures
            r@ == edit_line(Seq::empty(), keys@),
    {
        let mut acc: Vec<u8> = Vec::new();
        let mut i: usize = 0;
        proof {
            assert(keys@.skip(0) =~= keys@);
        }
        while i < keys.len()
            invariant
                i <= keys@.len(),
                edit_line(Seq::empty(), keys@) == edit_line(acc@, keys@.skip(i as int)),
            decreases keys@.len() - i,
        {
            let k = keys[i];
            proof {
                assert(keys@.skip(i as int).drop_first() =~= keys@.skip(i as int + 1));
                assert(keys@.skip(i as int)[0] == keys@[i as int]);
            }
            if k == 10 || k == 13 {
                return acc;
            } else if k == KEY_BACKSPACE || k == KEY_DELETE {
                if acc.len() > 0 {
                    acc.pop();
                }
            } else {
                acc.push(k);
            }
            i = i + 1;
        }
        proof {
            assert(keys@.skip(keys@.len() as int) =~= Seq::<u8>::empty());
        }
        acc
    }
}

impl Stdout {
    fn new() -> (r: Stdout)
        ensures
            r.written@.len() == 0,
    {
        Stdout { written: Vec::new() }
    }

    /// Write a string to standard output: its bytes are appended to the
    /// handle's pending output.
    pub fn write(&mut self, s: &str)
        ensures
            final(self).written@ == old(self).written@ + s.spec_bytes(),
    {
        append_bytes(&mut self.written, s.as_bytes());
    }
}

impl Stderr {
    fn new() -> (r: Stderr)
        ensures
            r.written@.len() == 0,
    {
        Stderr { written: Vec::new() }
    }

    /// Write a string to standard error: its bytes are appended to the
    /// handle's pending output.
    pub fn write(&mut self, s: &str)
        ensures
            final(self).written@ == old(self).written@ + s.spec_bytes(),
    {
        append_bytes(&mut self.written, s.as_bytes());
    }
}

/// Append a byte slice to a vector.
fn append_bytes(v: &mut Vec<u8>, b: &[u8])
    ensures
        final(v)@ == old(v)@ + b@,
{
    let mut i: usize = 0;
    while i < b.len()
        invariant
            i <= b@.len(),
            v@ == old(v)@ + b@.take(i as int),
        decreases b@.len() - i,
    {
        v.push(b[i]);
        proof {
            assert(old(v)@ + b@.take(i as int + 1) =~= (old(v)@ + b@.take(i as int)).push(
                b@[i as int],
            ));
        }
        i = i + 1;
    }
    proof {
        assert(b@.take(b@.len() as int) =~= b@);
        assert(v@ =~= old(v)@ + b@);
    }
}

/// The standard input handle.
pub fn stdin() -> (r: Stdin) {
    Stdin::new()
}

/// The standard output handle.
pub fn stdout() -> (r: Stdout)
    ensures
        r.written@.len() == 0,
{
    Stdout::new()
}

/// The standard error handle.
pub fn stderr() -> (r: Stderr)
    ensures
        r.written@.len() == 0,
{
    Stderr::new()
}

} // verus!
