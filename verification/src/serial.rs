//! Framing of telegrams in the line stream of a serial port, and the line
//! speeds the port supports.

use vstd::prelude::*;

verus! {

/// The state of framing one telegram out of the lines read from the port.
pub struct FramerModel {
    /// A line with a `/` has been seen: the telegram has begun.
    pub started: bool,
    /// The bytes of the telegram so far, from its `/` on.
    pub telegram: Seq<u8>,
    /// A line starting with `!` has ended the telegram.
    pub complete: bool,
}

/// The position of the first `/` in a line, if it has one.
pub open spec fn first_slash(line: Seq<u8>) -> Option<int> {
    if line.contains(0x2fu8) {
        Some(choose|i: int| 0 <= i < line.len() && line[i] == 0x2fu8 && !line.take(i).contains(0x2fu8))
    } else {
        None
    }
}

/// The framing state after one more line: before the telegram begins, a line
/// with a `/` starts it from that `/` and other lines are dropped; after it
/// has begun, every line is appended, and a line starting with `!` completes
/// it. A complete telegram takes no more lines.
pub open spec fn frame_step(m: FramerModel, line: Seq<u8>) -> FramerModel {
    if m.complete {
        m
    } else if !m.started {
        match first_slash(line) {
            Some(i) => FramerModel { started: true, telegram: line.skip(i), complete: false },
            None => m,
        }
    } else {
        FramerModel {
            started: true,
            telegram: m.telegram + line,
            complete: line.len() > 0 && line[0] == 0x21u8,
        }
    }
}

/// The bytes of `line` from position `from` on.
fn bytes_from(line: &[u8], from: usize) -> (v: Vec<u8>)
    requires
        from <= line@.len(),
    ensures
        v@ == line@.skip(from as int),
{
    let mut v: Vec<u8> = Vec::new();
    let mut j = from;
    while j < line.len()
        invariant
            from <= j <= line@.len(),
            v@ == line@.subrange(from as int, j as int),
        decreases line.len() - j,
    {
        v.push(line[j]);
        j = j + 1;
        assert(v@ =~= line@.subrange(from as int, j as int));
    }
    assert(v@ =~= line@.skip(from as int));
    v
}

/// Assembles one telegram out of the lines read from the port.
pub struct TelegramFramer {
    telegram: Vec<u8>,
    started: bool,
    complete: bool,
}

impl View for TelegramFramer {
    type V = FramerModel;

    closed spec fn view(&self) -> FramerModel {
        FramerModel { started: self.started, telegram: self.telegram@, complete: self.complete }
    }
}

impl TelegramFramer {
    /// Every framing state that lines can lead to: a begun telegram starts
    /// with `/`, and only a begun telegram can be complete.
    pub open spec fn wf(&self) -> bool {
        &&& self@.started ==> self@.telegram.len() > 0 && self@.telegram[0] == 0x2fu8
        &&& self@.complete ==> self@.started
        &&& !self@.started ==> self@.telegram.len() == 0
    }

    /// A framer that has seen no line yet.
    pub fn new() -> (f: TelegramFramer)
        ensures
            f.wf(),
            f@.telegram.len() == 0,
            !f@.started,
            !f@.complete,
    {
        TelegramFramer { telegram: Vec::new(), started: false, complete: false }
    }

    /// Takes one line as read from the port, with its line ending, and tells
    /// whether the telegram is now complete.
    pub fn push_line(&mut self, line: &[u8]) -> (done: bool)
        requires
            old(self).wf(),
        ensures
            final(self).wf(),
            final(self)@ == frame_step(old(self)@, line@),
            done == final(self)@.complete,
    {
        if self.complete {
            return true;
        }
        if !self.started {
            let ghost m0 = self@;
            assert(m0.telegram.len() == 0);
            let mut i: usize = 0;
            while i < line.len()
                invariant
                    i <= line@.len(),
                    forall|j: int| 0 <= j < i ==> line@[j] != 0x2fu8,
                    self@ == m0,
                    m0 == old(self)@,
                    !m0.started,
                    !m0.complete,
                    m0.telegram.len() == 0,
                decreases line.len() - i,
            {
                if line[i] == 0x2f {
                    assert(!line@.take(i as int).contains(0x2fu8)) by {
                        if line@.take(i as int).contains(0x2fu8) {
                            let w = choose|w: int| 0 <= w < i && line@.take(i as int)[w] == 0x2fu8;
                            assert(line@[w] != 0x2fu8);
                        }
                    }
                    proof {
                        assert(line@[i as int] == 0x2fu8);
                        assert(line@.contains(0x2fu8));
                        let k = first_slash(line@)->0;
                        assert(0 <= k < line@.len() && line@[k] == 0x2fu8 && !line@.take(
                            k,
                        ).contains(0x2fu8));
                        if k < i {
                            assert(line@[k] != 0x2fu8);
                        } else if k > i {
                            assert(line@.take(k)[i as int] == 0x2fu8);
                            assert(line@.take(k).contains(0x2fu8));
                        }
                        assert(first_slash(line@) == Some(i as int));
                    }
                    self.telegram = bytes_from(line, i);
                    assert(self.telegram@ =~= line@.skip(i as int));
                    self.started = true;
                    return false;
                }
                i = i + 1;
            }
            assert(!line@.contains(0x2fu8)) by {
                if line@.contains(0x2fu8) {
                    let w = choose|w: int| 0 <= w < line@.len() && line@[w] == 0x2fu8;
                    assert(line@[w] != 0x2fu8);
                }
            }
            return false;
        }
        let ghost before = self.telegram@;
        let mut j: usize = 0;
        while j < line.len()
            invariant
                j <= line@.len(),
                self.telegram@ == before + line@.take(j as int),
                self.started,
                !self.complete,
            decreases line.len() - j,
        {
            self.telegram.push(line[j]);
            j = j + 1;
            assert(self.telegram@ =~= before + line@.take(j as int));
        }
        assert(line@.take(line@.len() as int) =~= line@);
        self.complete = line.len() > 0 && line[0] == 0x21;
        self.complete
    }

    /// The bytes of the telegram framed so far.
    pub fn telegram(&self) -> (t: &Vec<u8>)
        ensures
            t@ == self@.telegram,
    {
        &self.telegram
    }
}

/// A line speed that the serial port can be set to.
#[derive(Debug, Clone, Copy, PartialEq, Eq)]
pub enum BaudRate {
    B300,
    B600,
    B1200,
    B2400,
    B4800,
    B9600,
    B19200,
    B38400,
}

/// The supported line speed for `rate` bits per second, if there is one.
pub open spec fn baud_rate_spec(rate: u32) -> Option<BaudRate> {
    if rate == 300 {
        Some(BaudRate::B300)
    } else if rate == 600 {
        Some(BaudRate::B600)
    } else if rate == 1200 {
        Some(BaudRate::B1200)
    } else if rate == 2400 {
        Some(BaudRate::B2400)
    } else if rate == 4800 {
        Some(BaudRate::B4800)
    } else if rate == 9600 {
        Some(BaudRate::B9600)
    } else if rate == 19200 {
        Some(BaudRate::B19200)
    } else if rate == 38400 {
        Some(BaudRate::B38400)
    } else {
        None
    }
}

/// The line speed to configure for `rate` bits per second; `None` when the
/// port does not support it.
pub fn supported_baud_rate(rate: u32) -> (r: Option<BaudRate>)
    ensures
        r == baud_rate_spec(rate),
{
    match rate {
        300 => Some(BaudRate::B300),
        600 => Some(BaudRate::B600),
        1200 => Some(BaudRate::B1200),
        2400 => Some(BaudRate::B2400),
        4800 => Some(BaudRate::B4800),
        9600 => Some(BaudRate::B9600),
        19200 => Some(BaudRate::B19200),
        38400 => Some(BaudRate::B38400),
        _ => None,
    }
}

} // verus!
