//! Logging and failure reporting shared by every program of the firmware.
//!
//! Log lines go into a pipe that a USB task drains: writing never blocks, and what does not fit is dropped. A panic
//! message is kept in memory that survives a reset and is reported once on the next boot.

use vstd::prelude::*;
use vstd::slice::slice_subrange;
use vstd::string::*;

verus! {

/// Bytes the log pipe can queue.
pub const PIPE_BYTES: usize = 1024;

/// Bytes of one USB packet.
pub const CDC_PACKET: usize = 64;

/// Opening the serial port at this rate asks for the bootloader.
pub const TOUCH_BAUD: u32 = 1200;

/// Value of the retained register that keeps the bootloader in firmware-update mode.
pub const DFU_MAGIC_UF2_RESET: u32 = 0x57;

/// Marks a panic message that was written completely.
pub const PANIC_MAGIC: u32 = 0x504e_4943;

/// Longest panic message kept; the rest is cut off.
pub const PANIC_BUF_LEN: usize = 256;

/// USB device identity presented over the serial port, so that the host can tell the boards apart.
#[derive(Clone, Copy)]
pub struct UsbIdentity {
    pub vid: u16,
    pub pid: u16,
    pub manufacturer: &'static str,
    pub product: &'static str,
    pub serial_number: &'static str,
}

impl UsbIdentity {
    /// An identity of these parts.
    pub fn new(
        vid: u16,
        pid: u16,
        manufacturer: &'static str,
        product: &'static str,
        serial_number: &'static str,
    ) -> (id: Self)
        ensures
            id.vid == vid,
            id.pid == pid,
            id.manufacturer@ == manufacturer@,
            id.product@ == product@,
            id.serial_number@ == serial_number@,
    {
        UsbIdentity { vid, pid, manufacturer, product, serial_number }
    }
}

// ---------------------------------------------------------------------------------------------------------------
// The log pipe
// ---------------------------------------------------------------------------------------------------------------

/// The queue that log lines go through: an `embassy_sync::pipe::Pipe` of [`PIPE_BYTES`] bytes.
#[verifier::external_body]
pub struct LogPipe {
    inner: embassy_sync::pipe::Pipe<embassy_sync::blocking_mutex::raw::CriticalSectionRawMutex, 1024>,
}

/// The bytes queued in a pipe, the oldest first.
pub uninterp spec fn queued(pipe: LogPipe) -> Seq<u8>;

/// Where in the pipe's ring the oldest byte lies, or will lie.
pub uninterp spec fn ring_start(pipe: LogPipe) -> nat;

/// How many bytes fit in one piece behind those queued: up to the end of the ring, or up to the oldest byte once the
/// queued ones have wrapped around.
pub open spec fn room_in_one_piece(start: nat, len: nat) -> int {
    if start + len < PIPE_BYTES {
        PIPE_BYTES - (start + len)
    } else {
        PIPE_BYTES - len
    }
}

/// The lesser of two numbers.
pub open spec fn lesser(a: int, b: int) -> int {
    if a <= b {
        a
    } else {
        b
    }
}

/// `embassy_sync::pipe::Pipe::new`: an empty pipe.
#[verifier::external_body]
fn pipe_new() -> (pipe: LogPipe)
    ensures
        queued(pipe) == Seq::<u8>::empty(),
        ring_start(pipe) == 0,
{
    LogPipe { inner: embassy_sync::pipe::Pipe::new() }
}

/// `embassy_sync::pipe::Pipe::try_write`: queues bytes from the front of `bytes` without waiting, as many as the free
/// space of the ring takes in one piece, and returns how many; `None` for its error, a full pipe.
#[verifier::external_body]
fn pipe_try_write(pipe: &mut LogPipe, bytes: &[u8]) -> (taken: Option<usize>)
    ensures
        taken is None <==> queued(*old(pipe)).len() >= PIPE_BYTES,
        taken is None ==> queued(*final(pipe)) == queued(*old(pipe)),
        taken matches Some(n) ==> n == lesser(
            bytes@.len() as int,
            room_in_one_piece(ring_start(*old(pipe)), queued(*old(pipe)).len()),
        ),
        taken matches Some(n) ==> queued(*final(pipe)) == queued(*old(pipe)) + bytes@.take(n as int),
        queued(*final(pipe)).len() <= PIPE_BYTES,
        ring_start(*final(pipe)) == ring_start(*old(pipe)),
        ring_start(*final(pipe)) < PIPE_BYTES,
{
    pipe.inner.try_write(bytes).ok()
}

/// `embassy_sync::pipe::Pipe::try_read`: moves the oldest bytes into the front of `buf` without waiting, as many as lie
/// in one piece and fit, and returns how many; `None` for its error, an empty pipe. The rest of `buf` stays as it is.
#[verifier::external_body]
fn pipe_try_read(pipe: &mut LogPipe, buf: &mut [u8; 64]) -> (taken: Option<usize>)
    ensures
        taken is None <==> queued(*old(pipe)).len() == 0,
        taken is None ==> queued(*final(pipe)) == queued(*old(pipe)) && final(buf)@ == old(buf)@,
        taken is None ==> ring_start(*final(pipe)) == ring_start(*old(pipe)),
        ring_start(*final(pipe)) < PIPE_BYTES,
        taken matches Some(n) ==> 0 < n == lesser(
            64,
            lesser(queued(*old(pipe)).len() as int, PIPE_BYTES - ring_start(*old(pipe))),
        ),
        taken matches Some(n) ==> queued(*final(pipe)) == queued(*old(pipe)).skip(n as int),
        taken matches Some(n) ==> ring_start(*final(pipe)) == (ring_start(*old(pipe)) + n) % (PIPE_BYTES as int),
        taken matches Some(n) ==> final(buf)@ == queued(*old(pipe)).take(n as int) + old(buf)@.skip(n as int),
{
    pipe.inner.try_read(buf).ok()
}

impl View for LogPipe {
    type V = Seq<u8>;

    open spec fn view(&self) -> Seq<u8> {
        queued(*self)
    }
}

impl LogPipe {
    /// An empty pipe.
    pub fn new() -> (pipe: Self)
        ensures
            pipe@ == Seq::<u8>::empty(),
            pipe.spec_start() == 0,
    {
        pipe_new()
    }

    /// Where in the ring the oldest byte lies.
    pub open spec fn spec_start(&self) -> nat {
        ring_start(*self)
    }

    /// Moves up to one USB packet's worth of the oldest bytes into the front of `buf` and returns how many: at least
    /// one unless the pipe is empty, and none past the end of the ring.
    pub fn read_packet(&mut self, buf: &mut [u8; 64]) -> (n: usize)
        ensures
            n == lesser(CDC_PACKET as int, lesser(old(self)@.len() as int, PIPE_BYTES - old(self).spec_start())),
            n == 0 <==> old(self)@.len() == 0,
            final(self)@ == old(self)@.skip(n as int),
            final(self).spec_start() == (old(self).spec_start() + n) % (PIPE_BYTES as int),
            final(buf)@ == old(self)@.take(n as int) + old(buf)@.skip(n as int),
    {
        match pipe_try_read(self, buf) {
            Some(n) => n,
            None => {
                proof {
                    assert(self@.skip(0) =~= self@);
                    assert(buf@ =~= self@.take(0) + buf@.skip(0));
                }
                0
            },
        }
    }
}

/// What a pipe holds after `bytes` were pushed: as many of them as there was room for.
pub open spec fn pushed(held: Seq<u8>, bytes: Seq<u8>) -> Seq<u8> {
    let room = PIPE_BYTES - held.len();
    if bytes.len() == 0 || bytes.len() <= room {
        held + bytes
    } else {
        held + bytes.take(room)
    }
}

/// Pushes bytes into the pipe without ever blocking the caller. Where the pipe is full the rest is dropped: logging
/// must never stall the control path.
pub fn write_bytes(pipe: &mut LogPipe, bytes: &[u8])
    ensures
        final(pipe)@ == pushed(old(pipe)@, bytes@),
        final(pipe).spec_start() == old(pipe).spec_start(),
{
    let mut at: usize = 0;
    let mut full: bool = false;
    proof {
        assert(old(pipe)@ + bytes@.take(0) =~= old(pipe)@);
    }
    while at < bytes.len() && !full
        invariant
            at <= bytes@.len(),
            pipe@ == old(pipe)@ + bytes@.take(at as int),
            pipe.spec_start() == old(pipe).spec_start(),
            at > 0 ==> pipe@.len() <= PIPE_BYTES,
            full ==> pipe@.len() == PIPE_BYTES,
        decreases bytes@.len() - at + (if full {
            0int
        } else {
            1
        }),
    {
        let rest = slice_subrange(bytes, at, bytes.len());
        match pipe_try_write(pipe, rest) {
            Some(n) => {
                proof {
                    assert(bytes@.take(at as int) + rest@.take(n as int) =~= bytes@.take(at + n));
                    assert(old(pipe)@ + bytes@.take(at as int) + rest@.take(n as int) =~= old(pipe)@ + bytes@.take(
                        at + n,
                    ));
                }
                at += n;
            },
            None => {
                full = true;
            },
        }
    }
    proof {
        assert(bytes@.take(bytes@.len() as int) =~= bytes@);
    }
}

/// A writer of text into the pipe.
pub struct PipeWriter<'a> {
    pub pipe: &'a mut LogPipe,
}

impl<'a> PipeWriter<'a> {
    /// Pushes text into the pipe as UTF-8.
    pub fn write_str(&mut self, s: &str)
        ensures
            final(self).pipe@ == pushed(old(self).pipe@, s.spec_bytes()),
            final(self).pipe.spec_start() == old(self).pipe.spec_start(),
    {
        write_bytes(self.pipe, s.as_bytes())
    }
}

// ---------------------------------------------------------------------------------------------------------------
// USB
// ---------------------------------------------------------------------------------------------------------------

/// The boot-time USB power state in the regulator's status register: whether VBUS is present (bit 0) and whether the
/// regulator's output is ready (bit 1).
pub fn usb_power(usbregstatus: u32) -> (state: (bool, bool))
    ensures
        state.0 == (usbregstatus % 2 == 1),
        state.1 == (usbregstatus / 2 % 2 == 1),
{
    (usbregstatus % 2 == 1, usbregstatus / 2 % 2 == 1)
}

/// Whether a change of the port's line coding is the touch that asks for the bootloader.
pub fn is_bootloader_touch(data_rate: u32) -> (touch: bool)
    ensures
        touch == (data_rate == TOUCH_BAUD),
        touch <==> data_rate == 1200,
{
    data_rate == TOUCH_BAUD
}

// ---------------------------------------------------------------------------------------------------------------
// Panics
// ---------------------------------------------------------------------------------------------------------------

/// The panic message of the previous boot, in memory that a reset leaves alone. After a power-on it holds garbage.
pub struct PanicStore {
    pub magic: u32,
    pub len: usize,
    pub buf: [u8; 256],
}

impl PanicStore {
    /// Whether a complete message is waiting.
    pub open spec fn is_set(&self) -> bool {
        self.magic == PANIC_MAGIC
    }

    /// The message held, as far as the buffer goes.
    pub open spec fn message(&self) -> Seq<u8> {
        self.buf@.take(if self.len <= PANIC_BUF_LEN {
            self.len as int
        } else {
            PANIC_BUF_LEN as int
        })
    }

    /// Nothing waiting.
    pub fn new() -> (store: Self)
        ensures
            !store.is_set(),
            store.magic == 0,
            store.len == 0,
            store.buf@ == Seq::new(PANIC_BUF_LEN as nat, |i: int| 0u8),
            store.message() == Seq::<u8>::empty(),
    {
        let store = PanicStore { magic: 0, len: 0, buf: [0;256] };
        proof {
            assert(store.buf@ =~= Seq::new(PANIC_BUF_LEN as nat, |i: int| 0u8));
            assert(store.message() =~= Seq::<u8>::empty());
        }
        store
    }

    /// Starts a new message. The store is not valid until [`commit`](PanicStore::commit), so that a reset in between
    /// cannot surface half a message.
    pub fn begin(&mut self)
        ensures
            !final(self).is_set(),
            final(self).magic == 0,
            final(self).len == 0,
            final(self).buf@ == old(self).buf@,
            final(self).message() == Seq::<u8>::empty(),
    {
        self.magic = 0;
        self.len = 0;
        proof {
            assert(self.message() =~= Seq::<u8>::empty());
        }
    }

    /// Appends text to the message, as much of it as fits. The buffer behind the message stays as it is.
    pub fn write_str(&mut self, s: &str)
        requires
            old(self).len <= PANIC_BUF_LEN,
        ensures
            final(self).magic == old(self).magic,
            final(self).len <= PANIC_BUF_LEN,
            ({
                let all = old(self).message() + s.spec_bytes();
                final(self).message() == if all.len() <= PANIC_BUF_LEN {
                    all
                } else {
                    all.take(PANIC_BUF_LEN as int)
                }
            }),
            final(self).buf@.skip(final(self).len as int) == old(self).buf@.skip(final(self).len as int),
    {
        let bytes = s.as_bytes();
        let ghost start = self.len as int;
        let mut i: usize = 0;
        while i < bytes.len() && self.len < PANIC_BUF_LEN
            invariant
                i <= bytes@.len(),
                0 <= start == old(self).len <= PANIC_BUF_LEN,
                self.len == start + i,
                self.len <= PANIC_BUF_LEN,
                self.magic == old(self).magic,
                forall|j: int| 0 <= j < start ==> self.buf@[j] == old(self).buf@[j],
                forall|j: int| start <= j < start + i ==> #[trigger] self.buf@[j] == bytes@[j - start],
                forall|j: int| start + i <= j < PANIC_BUF_LEN ==> self.buf@[j] == old(self).buf@[j],
            decreases bytes@.len() - i,
        {
            let at = self.len;
            self.buf[at] = bytes[i];
            self.len += 1;
            i += 1;
        }
        proof {
            let all = old(self).message() + bytes@;
            if all.len() <= PANIC_BUF_LEN {
                assert(self.message() =~= all);
            } else {
                assert(self.message() =~= all.take(PANIC_BUF_LEN as int));
            }
            assert(self.buf@.skip(self.len as int) =~= old(self).buf@.skip(self.len as int));
        }
    }

    /// Marks the message complete, for the next boot to report.
    pub fn commit(&mut self)
        ensures
            final(self).is_set(),
            final(self).len == old(self).len,
            final(self).buf@ == old(self).buf@,
            final(self).message() == old(self).message(),
    {
        self.magic = PANIC_MAGIC;
    }

    /// The message of the previous boot, if one is waiting. It is handed out once.
    pub fn take(&mut self) -> (message: Option<Vec<u8>>)
        ensures
            !final(self).is_set(),
            final(self).magic == (if old(self).is_set() {
                0
            } else {
                old(self).magic
            }),
            final(self).len == old(self).len,
            final(self).buf@ == old(self).buf@,
            message is Some <==> old(self).is_set(),
            message matches Some(m) ==> m@ == old(self).message(),
    {
        if self.magic != PANIC_MAGIC {
            return None;
        }
        let len: usize = if self.len <= PANIC_BUF_LEN {
            self.len
        } else {
            PANIC_BUF_LEN
        };
        let mut message: Vec<u8> = Vec::new();
        let mut i: usize = 0;
        while i < len
            invariant
                i <= len <= PANIC_BUF_LEN,
                message@ == self.buf@.take(i as int),
            decreases len - i,
        {
            message.push(self.buf[i]);
            i += 1;
            proof {
                assert(message@ =~= self.buf@.take(i as int));
            }
        }
        self.magic = 0;
        Some(message)
    }
}

// ---------------------------------------------------------------------------------------------------------------
// Laws
// ---------------------------------------------------------------------------------------------------------------

/// What is drained comes out in the order it was pushed, and pushing while there is room loses nothing.
pub proof fn law_log_is_first_in_first_out(held: Seq<u8>, a: Seq<u8>, b: Seq<u8>)
    requires
        held.len() + a.len() + b.len() <= PIPE_BYTES,
    ensures
        pushed(pushed(held, a), b) == held + a + b,
        pushed(pushed(held, a), b).skip(held.len() as int) == a + b,
{
    assert(pushed(pushed(held, a), b).skip(held.len() as int) =~= a + b);
}

/// A full pipe keeps what it has: the newest bytes are the ones dropped.
pub proof fn law_full_log_drops_the_newest(held: Seq<u8>, bytes: Seq<u8>)
    requires
        held.len() <= PIPE_BYTES,
    ensures
        pushed(held, bytes).len() <= PIPE_BYTES,
        pushed(held, bytes).take(held.len() as int) == held,
        held.len() == PIPE_BYTES ==> pushed(held, bytes) == held,
{
    assert(pushed(held, bytes).take(held.len() as int) =~= held);
    if held.len() == PIPE_BYTES {
        assert(pushed(held, bytes) =~= held);
    }
}

/// The log keeps what fits: what it holds after a push starts with what it held, goes on with what was pushed, and ends
/// where 1024 bytes or the pushed bytes do.
pub proof fn law_log_keeps_what_fits(held: Seq<u8>, bytes: Seq<u8>)
    requires
        held.len() <= 1024,
    ensures
        ({
            let now = pushed(held, bytes);
            &&& held.len() + bytes.len() <= 1024 ==> now == held + bytes
            &&& held.len() + bytes.len() > 1024 ==> now == (held + bytes).take(1024)
        }),
{
    if held.len() + bytes.len() > 1024 {
        assert(pushed(held, bytes) =~= (held + bytes).take(1024));
    }
}

/// A kept message is the first bytes of its buffer, as many as its length says and never more than 256.
pub proof fn law_message_is_the_start_of_the_buffer(store: PanicStore)
    ensures
        store.len <= 256 ==> store.message() == store.buf@.take(store.len as int),
        store.len > 256 ==> store.message() == store.buf@,
        store.is_set() <==> store.magic == 0x504e_4943,
{
    if store.len > 256 {
        assert(store.message() =~= store.buf@);
    }
}

} // verus!
