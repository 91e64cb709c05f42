//! The update cycle: check the served version, download, flash, activate,
//! reboot. The cycle is a state machine: the caller performs each `Action`
//! (network, flash, reset) and feeds back the `Event` it led to.
//!
//! The version check and the download use two sessions, each with its own
//! handshake, since the two responses are framed independently. The CRC-32
//! that the server announces is read but not checked; what guards
//! activation is that exactly the announced number of bytes was written.
use vstd::prelude::*;
use vstd::math::min;
use vstd::string::StringSliceAdditionalSpecFns;
use crate::config::Config;
use crate::flash::{
    erase_len, erase_length, erase_ranges, lemma_erase_len_bounds, lemma_erase_plan, lemma_finish_completes,
    lemma_push_keeps_prefix, padded, push_step, writes_contiguous, written_data, EraseCursor,
    FlashWrite, FlashWriter, ERASE_CHUNK, WRITE_ALIGN, WRITE_BUFFER_SIZE,
};
use crate::protocol::{
    decide_update, decision_of, find_header_end, firmware_request, header_end, version_request,
    Decision, HEADER_BUFFER_SIZE,
};
use crate::semver::SemVer;
use crate::text::{append_bytes, copy_range};

verus! {

/// Why an update cycle failed.
#[derive(Debug, Clone, Copy, PartialEq, Eq, Structural)]
pub enum Error {
    /// DNS, TCP or TLS failure.
    Connection,
    /// Download failure, or an image whose size does not match.
    Firmware,
    /// The version-check response cannot be read.
    Info,
    /// Flash erase, write or activation failure.
    Ota,
    /// A required setting is missing.
    Config,
}

/// What the caller does next.
#[derive(Debug)]
pub enum Action {
    /// Open a new session to the update server.
    Connect,
    /// Write all of these bytes on the open session.
    Send(Vec<u8>),
    /// Read at most this many bytes from the open session.
    Read(usize),
    /// Close the open session.
    Close,
    /// Erase `[start, end)` of the next boot partition, then yield.
    Erase(u32, u32),
    /// Write to the next boot partition, then yield.
    Write(FlashWrite),
    /// Make the next partition the one that boots.
    Activate,
    /// Persist the "new image, not yet verified" boot-state marker.
    MarkNew,
    /// Reset the device after a short delay.
    Reboot,
    /// The cycle is over.
    Finish(Result<(), Error>),
}

/// What came of the last action.
#[derive(Debug)]
pub enum Event {
    /// Begin the cycle.
    Start,
    Connected,
    ConnectFailed,
    Sent,
    SendFailed,
    /// Bytes read; none means the peer ended the stream.
    Received(Vec<u8>),
    /// A read failed; `end_of_stream` for the closed-connection family.
    ReadFailed { end_of_stream: bool },
    Closed,
    Erased,
    EraseFailed,
    Written,
    WriteFailed,
    Activated,
    ActivateFailed,
    Marked,
    MarkFailed,
}

/// Where the cycle stands.
#[derive(Debug, Clone, Copy, PartialEq, Eq, Structural)]
pub enum Phase {
    Idle,
    InfoConnecting,
    InfoSending,
    InfoHeader,
    FwConnecting,
    FwSending,
    FwHeader,
    Erasing,
    StreamReading,
    StreamWriting,
    FinalWriting,
    Closing,
    Activating,
    Marking,
    Rebooting,
    Done,
}

/// What follows once the open session is closed.
#[derive(Debug, Clone, Copy, PartialEq, Eq, Structural)]
pub enum AfterClose {
    /// End the cycle without an update.
    Succeed,
    /// End the cycle with this error.
    Fail(Error),
    /// Open the download session.
    Download,
    /// Activate the written partition.
    Activate,
}

/// A session is open in this phase.
pub open spec fn has_session(p: Phase) -> bool {
    match p {
        Phase::InfoSending | Phase::InfoHeader | Phase::FwSending | Phase::FwHeader
        | Phase::Erasing | Phase::StreamReading | Phase::StreamWriting | Phase::FinalWriting
        | Phase::Closing => true,
        _ => false,
    }
}

/// The image is being written in this phase.
pub open spec fn is_streaming(p: Phase) -> bool {
    p == Phase::StreamReading || p == Phase::StreamWriting || p == Phase::FinalWriting
}


/// What one read of the version-check response leads to, from the header
/// bytes `h` read before it: a read that brings nothing or too much is an
/// `Info` error; once the headers end, the body decides; a full buffer
/// without their end is an `Info` error; otherwise read on. Every ending
/// closes the session first.
pub open spec fn info_read_outcome(
    h: Seq<u8>,
    d: Seq<u8>,
    running: Option<SemVer>,
    r: Action,
    next: OtaCycle,
) -> bool {
    let all = h + d;
    if d.len() == 0 || d.len() > HEADER_BUFFER_SIZE - h.len() {
        r is Close && next.phase() == Phase::Closing && next.after_close() == AfterClose::Fail(
            Error::Info,
        )
    } else {
        match header_end(all) {
            Some(p) => r is Close && next.phase() == Phase::Closing && match decision_of(
                all.subrange(p, all.len() as int),
                running,
            ) {
                Ok(Decision::Skip) => next.after_close() == AfterClose::Succeed,
                Ok(Decision::Update(info)) => next.after_close() == AfterClose::Download
                    && next.size() == info.size,
                Err(e) => next.after_close() == AfterClose::Fail(e),
            },
            None => if all.len() == HEADER_BUFFER_SIZE {
                r is Close && next.phase() == Phase::Closing && next.after_close()
                    == AfterClose::Fail(Error::Info)
            } else {
                r == Action::Read((HEADER_BUFFER_SIZE - all.len()) as usize) && next.phase()
                    == Phase::InfoHeader && next.header() == all
            },
        }
    }
}

/// What one read of the firmware response's headers leads to: as for the
/// version check, with `Firmware` errors; once the headers end, more body
/// bytes than the image size is a `Firmware` error, an erase region past the
/// 32-bit address space an `Ota` error, and otherwise a download starts: the
/// body bytes that came with the headers are kept as its first bytes, and
/// erasing begins with `[0, min(chunk, erase_len))`.
pub open spec fn firmware_header_outcome(
    h: Seq<u8>,
    d: Seq<u8>,
    size: nat,
    r: Action,
    next: OtaCycle,
) -> bool {
    let all = h + d;
    if d.len() == 0 || d.len() > HEADER_BUFFER_SIZE - h.len() {
        r is Close && next.phase() == Phase::Closing && next.after_close() == AfterClose::Fail(
            Error::Firmware,
        )
    } else {
        match header_end(all) {
            Some(p) => if all.len() - p > size {
                r is Close && next.phase() == Phase::Closing && next.after_close()
                    == AfterClose::Fail(Error::Firmware)
            } else if erase_len(size) > u32::MAX {
                r is Close && next.phase() == Phase::Closing && next.after_close()
                    == AfterClose::Fail(Error::Ota)
            } else {
                &&& next.size() == size
                &&& next.erase_total() == erase_len(size)
                &&& next.downloading()
                &&& !next.ended()
                &&& next.received() == all.subrange(p, all.len() as int)
                &&& next.writes() == Seq::<(nat, Seq<u8>)>::empty()
                &&& erase_len(size) > 0 ==> {
                    &&& r matches Action::Erase(a, b) && a == 0 && b as nat == min(
                        ERASE_CHUNK as int,
                        erase_len(size) as int,
                    ) && next.erases() == seq![(a as nat, b as nat)]
                    &&& next.phase() == Phase::Erasing
                    &&& next.leftover() == all.subrange(p, all.len() as int)
                    &&& next.written() == 0
                    &&& next.pending_bytes().len() == 0
                }
                &&& erase_len(size) == 0 ==> {
                    &&& r == Action::Read(WRITE_BUFFER_SIZE)
                    &&& next.phase() == Phase::StreamReading
                    &&& next.erases().len() == 0
                    &&& next.written() == 0
                    &&& next.pending_bytes().len() == 0
                    &&& next.leftover().len() == 0
                }
            },
            None => if all.len() == HEADER_BUFFER_SIZE {
                r is Close && next.phase() == Phase::Closing && next.after_close()
                    == AfterClose::Fail(Error::Firmware)
            } else {
                r == Action::Read((HEADER_BUFFER_SIZE - all.len()) as usize) && next.phase()
                    == Phase::FwHeader && next.header() == all
            },
        }
    }
}

/// All is erased: the body bytes that came with the headers go through the
/// flash writer first, and their aligned write, if any, is issued.
pub open spec fn begin_stream_outcome(before: OtaCycle, r: Action, next: OtaCycle) -> bool {
    let (w, p, out) = push_step(0, Seq::empty(), before.leftover());
    &&& next.written() == w
    &&& next.pending_bytes() == p
    &&& next.leftover().len() == 0
    &&& next.received() == before.received()
    &&& next.erases() == before.erases()
    &&& match out {
        Some(x) => r matches Action::Write(wr) && (wr.offset as nat, wr.data@) == x
            && next.writes() == before.writes().push(x) && next.phase() == Phase::StreamWriting,
        None => r == Action::Read((WRITE_BUFFER_SIZE - p.len()) as usize) && next.writes()
            == before.writes() && next.phase() == Phase::StreamReading,
    }
}

/// End of the image stream: a buffered tail is written, padded, right
/// after the bytes already written; with nothing buffered the session is
/// closed, to activate if exactly `size` bytes were written and to fail
/// with `Firmware` otherwise.
pub open spec fn end_of_stream_outcome(before: OtaCycle, r: Action, next: OtaCycle) -> bool {
    &&& next.ended()
    &&& next.received() == before.received()
    &&& next.erases() == before.erases()
    &&& if before.pending() > 0 {
        &&& r matches Action::Write(w) && w.offset == before.written() && w.data@ == padded(
            before.pending_bytes(),
        ) && next.writes() == before.writes().push((w.offset as nat, w.data@))
        &&& next.phase() == Phase::FinalWriting
        &&& next.written() == before.written() + before.pending()
        &&& next.pending() == 0
    } else {
        &&& r is Close
        &&& next.phase() == Phase::Closing
        &&& next.writes() == before.writes()
        &&& next.written() == before.written()
        &&& next.after_close() == if before.written() == before.size() {
            AfterClose::Activate
        } else {
            AfterClose::Fail(Error::Firmware)
        }
    }
}

/// One non-empty read of the image: more than fits beside the buffer, or
/// more than the announced size, is a `Firmware` error; otherwise the read
/// joins what has arrived and goes through the flash writer, and its
/// aligned write, if any, is issued.
pub open spec fn stream_read_outcome(before: OtaCycle, d: Seq<u8>, r: Action, next: OtaCycle) -> bool {
    if d.len() > WRITE_BUFFER_SIZE - before.pending() || before.written() + before.pending()
        + d.len() > before.size() {
        r is Close && next.phase() == Phase::Closing && next.after_close() == AfterClose::Fail(
            Error::Firmware,
        ) && next.received() == before.received() && next.writes() == before.writes()
    } else {
        let (w, p, out) = push_step(before.written(), before.pending_bytes(), d);
        &&& next.written() == w
        &&& next.pending_bytes() == p
        &&& next.received() == before.received() + d
        &&& next.erases() == before.erases()
        &&& match out {
            Some(x) => r matches Action::Write(wr) && (wr.offset as nat, wr.data@) == x
                && next.writes() == before.writes().push(x) && next.phase()
                == Phase::StreamWriting,
            None => r == Action::Read((WRITE_BUFFER_SIZE - p.len()) as usize) && next.writes()
                == before.writes() && next.phase() == Phase::StreamReading,
        }
    }
}

/// The settings of a cycle are the same in `a` and `b`.
pub open spec fn same_setup(a: OtaCycle, b: OtaCycle) -> bool {
    &&& a.running() == b.running()
    &&& a.version_req() == b.version_req()
    &&& a.firmware_req() == b.firmware_req()
}

/// The download's state is the same in `a` and `b`.
pub open spec fn same_download(a: OtaCycle, b: OtaCycle) -> bool {
    &&& a.size() == b.size()
    &&& a.downloading() == b.downloading()
    &&& a.ended() == b.ended()
    &&& a.received() == b.received()
    &&& a.writes() == b.writes()
    &&& a.erases() == b.erases()
    &&& a.leftover() == b.leftover()
    &&& a.written() == b.written()
    &&& a.pending_bytes() == b.pending_bytes()
    &&& a.erased() == b.erased()
    &&& a.erase_total() == b.erase_total()
}

/// The partition is being activated, or about to be.
pub open spec fn activating(c: OtaCycle) -> bool {
    c.phase() == Phase::Activating || c.phase() == Phase::Marking || c.phase() == Phase::Rebooting
        || (c.phase() == Phase::Closing && c.after_close() == AfterClose::Activate)
}

/// The configured update service, and the version now running.
pub struct Ota {
    device_id: &'static str,
    hostname: &'static str,
    port: u16,
    running: Option<SemVer>,
}

impl Ota {
    pub closed spec fn spec_device_id(&self) -> &'static str {
        self.device_id
    }

    pub closed spec fn spec_hostname(&self) -> &'static str {
        self.hostname
    }

    pub closed spec fn spec_port(&self) -> u16 {
        self.port
    }

    pub closed spec fn spec_running(&self) -> Option<SemVer> {
        self.running
    }

    /// Reads the update settings; `Config` when the server's host name or
    /// port is not set. `running_version` that does not parse makes every
    /// cycle skip, since freshness cannot be told.
    pub fn new(config: &Config, running_version: &str) -> (r: Result<Ota, Error>)
        ensures
            match (config.ota_hostname, config.ota_port) {
                (Some(h), Some(p)) => r matches Ok(o) && o.spec_device_id() == config.device_id
                    && o.spec_hostname() == h && o.spec_port() == p && o.spec_running()
                    == crate::semver::semver_of(running_version.spec_bytes()),
                _ => r == Err::<Ota, Error>(Error::Config),
            },
    {
        let hostname = match config.ota_hostname {
            Some(h) => h,
            None => return Err(Error::Config),
        };
        let port = match config.ota_port {
            Some(p) => p,
            None => return Err(Error::Config),
        };
        Ok(Ota { device_id: config.device_id, hostname, port, running: SemVer::parse(running_version) })
    }

    /// Host name of the update server.
    pub fn hostname(&self) -> (r: &'static str)
        ensures
            r == self.spec_hostname(),
    {
        self.hostname
    }

    /// Port of the update server.
    pub fn port(&self) -> (r: u16)
        ensures
            r == self.spec_port(),
    {
        self.port
    }

    /// A new cycle, not yet started.
    pub fn begin_check(&self) -> (r: OtaCycle)
        ensures
            r.wf(),
            r.download_inv(),
            !r.downloading(),
            r.phase() == Phase::Idle,
            r.running() == self.spec_running(),
            r.version_req() == crate::protocol::version_request_bytes(
                self.spec_device_id().spec_bytes(),
                self.spec_hostname().spec_bytes(),
            ),
            r.firmware_req() == crate::protocol::firmware_request_bytes(
                self.spec_device_id().spec_bytes(),
                self.spec_hostname().spec_bytes(),
            ),
    {
        OtaCycle::new(
            self.running,
            version_request(self.device_id, self.hostname),
            firmware_request(self.device_id, self.hostname),
        )
    }
}

/// One update cycle.
pub struct OtaCycle {
    phase: Phase,
    running: Option<SemVer>,
    version_req: Vec<u8>,
    firmware_req: Vec<u8>,
    header: Vec<u8>,
    size: u32,
    leftover: Vec<u8>,
    erase: EraseCursor,
    writer: FlashWriter,
    after_close: AfterClose,
    result: Result<(), Error>,
    downloading: Ghost<bool>,
    ended: Ghost<bool>,
    received: Ghost<Seq<u8>>,
    writes: Ghost<Seq<(nat, Seq<u8>)>>,
    erases: Ghost<Seq<(nat, nat)>>,
}

impl OtaCycle {
    pub closed spec fn phase(&self) -> Phase {
        self.phase
    }

    pub closed spec fn running(&self) -> Option<SemVer> {
        self.running
    }

    pub closed spec fn version_req(&self) -> Seq<u8> {
        self.version_req@
    }

    pub closed spec fn firmware_req(&self) -> Seq<u8> {
        self.firmware_req@
    }

    /// Response bytes read so far while looking for the end of the headers.
    pub closed spec fn header(&self) -> Seq<u8> {
        self.header@
    }

    /// Size of the image being downloaded.
    pub closed spec fn size(&self) -> nat {
        self.size as nat
    }

    /// Genuine image bytes written to flash so far.
    pub closed spec fn written(&self) -> nat {
        self.writer@.written
    }

    /// Number of image bytes read but not yet written.
    pub closed spec fn pending(&self) -> nat {
        self.writer@.pending.len()
    }

    /// The image bytes read but not yet written.
    pub closed spec fn pending_bytes(&self) -> Seq<u8> {
        self.writer@.pending
    }

    /// Image bytes that came with the firmware response's headers and wait
    /// for the erase to finish.
    pub closed spec fn leftover(&self) -> Seq<u8> {
        self.leftover@
    }

    /// Outcome of the cycle, once it is over.
    pub closed spec fn result(&self) -> Result<(), Error> {
        self.result
    }

    /// Bytes erased so far, and in all.
    pub closed spec fn erased(&self) -> nat {
        self.erase.erased()
    }

    pub closed spec fn erase_total(&self) -> nat {
        self.erase.total()
    }

    pub closed spec fn after_close(&self) -> AfterClose {
        self.after_close
    }

    /// The firmware response's headers have ended and the image is on its way.
    pub closed spec fn downloading(&self) -> bool {
        self.downloading@
    }

    /// The image stream has ended.
    pub closed spec fn ended(&self) -> bool {
        self.ended@
    }

    /// Every image byte received in this download, in order.
    pub closed spec fn received(&self) -> Seq<u8> {
        self.received@
    }

    /// Every flash write issued in this download, as offset and data.
    pub closed spec fn writes(&self) -> Seq<(nat, Seq<u8>)> {
        self.writes@
    }

    /// Every erase call issued in this download, as `[start, end)`.
    pub closed spec fn erases(&self) -> Seq<(nat, nat)> {
        self.erases@
    }

    /// What a download's record means. The erase calls issued and those
    /// still to come make up the plan for the image size; nothing is
    /// written before all is erased; the writes follow one another from
    /// offset 0 with aligned lengths. Until the stream ends, the data
    /// written is exactly the prefix of the bytes received, and the rest
    /// is buffered; once it ends, the data written is exactly the bytes
    /// received followed by erased-state padding, and the count is their
    /// number. Activation only ever follows an ended stream of exactly
    /// `size` bytes.
    pub open spec fn download_inv(&self) -> bool {
        &&& (self.phase() == Phase::Erasing || is_streaming(self.phase()) || activating(*self))
            ==> self.downloading()
        &&& self.downloading() ==> {
            &&& self.erase_total() == erase_len(self.size())
            &&& self.erased() <= self.erase_total()
            &&& self.erases() + erase_ranges(self.erased(), self.erase_total(), ERASE_CHUNK as nat)
                == erase_ranges(0, self.erase_total(), ERASE_CHUNK as nat)
            &&& self.received().len() <= self.size()
            &&& writes_contiguous(self.writes())
            &&& (self.writes().len() > 0 || is_streaming(self.phase()) || self.ended())
                ==> self.erased() == self.erase_total()
            &&& !self.ended() ==> {
                &&& self.written() + self.pending() + self.leftover().len() == self.received().len()
                &&& written_data(self.writes()) == self.received().subrange(0, self.written() as int)
                &&& self.pending_bytes() + self.leftover() == self.received().subrange(
                    self.written() as int,
                    self.received().len() as int,
                )
            }
            &&& self.ended() ==> {
                &&& written_data(self.writes()) == padded(self.received())
                &&& self.written() == self.received().len()
                &&& self.pending() == 0
            }
        }
        &&& activating(*self) ==> self.ended() && self.written() == self.size()
    }

    pub closed spec fn wf(&self) -> bool {
        &&& self.download_inv()
        &&& self.writer.wf()
        &&& self.writer@.capacity == WRITE_BUFFER_SIZE
        &&& self.erase.wf()
        &&& self.erase.chunk() == ERASE_CHUNK
        &&& self.header@.len() <= HEADER_BUFFER_SIZE
        &&& self.leftover@.len() <= HEADER_BUFFER_SIZE
        &&& (self.phase == Phase::Idle || self.phase == Phase::InfoConnecting || self.phase
            == Phase::InfoSending || self.phase == Phase::InfoHeader || self.phase
            == Phase::FwConnecting || self.phase == Phase::FwSending || self.phase
            == Phase::FwHeader || (self.phase == Phase::Closing && self.after_close
            == AfterClose::Download)) ==> !self.downloading@
        &&& (self.phase == Phase::Erasing || is_streaming(self.phase)) ==> {
            &&& self.erase.total() == erase_len(self.size as nat)
            &&& self.writer@.written + self.writer@.pending.len() + self.leftover@.len()
                <= self.size
        }
        &&& (self.phase == Phase::Erasing || self.phase == Phase::StreamReading || self.phase
            == Phase::StreamWriting) ==> !self.ended@
        &&& is_streaming(self.phase) ==> self.erase.erased() == self.erase.total()
        &&& (self.phase == Phase::FwConnecting || self.phase == Phase::FwSending || self.phase
            == Phase::FwHeader || self.phase == Phase::Erasing) ==> self.writer@.written == 0
            && self.writer@.pending.len() == 0
        &&& (self.phase == Phase::Erasing || self.phase == Phase::StreamReading || self.phase
            == Phase::StreamWriting) ==> self.writer@.written % (WRITE_ALIGN as nat) == 0
        &&& is_streaming(self.phase) ==> self.leftover@.len() == 0
        &&& self.phase == Phase::FinalWriting ==> self.writer@.pending.len() == 0 && self.ended@
        &&& activating(*self) ==> self.erase.erased() == self.erase.total()
    }

    fn new(running: Option<SemVer>, version_req: Vec<u8>, firmware_req: Vec<u8>) -> (r: OtaCycle)
        ensures
            r.wf(),
            r.download_inv(),
            !r.downloading(),
            r.phase() == Phase::Idle,
            r.running() == running,
            r.version_req() == version_req@,
            r.firmware_req() == firmware_req@,
    {
        OtaCycle {
            phase: Phase::Idle,
            running,
            version_req,
            firmware_req,
            header: Vec::new(),
            size: 0,
            leftover: Vec::new(),
            erase: EraseCursor::new(0, ERASE_CHUNK),
            writer: FlashWriter::new(WRITE_BUFFER_SIZE),
            after_close: AfterClose::Succeed,
            result: Ok(()),
            downloading: Ghost(false),
            ended: Ghost(false),
            received: Ghost(Seq::empty()),
            writes: Ghost(Seq::empty()),
            erases: Ghost(Seq::empty()),
        }
    }

    /// Current phase.
    pub fn current_phase(&self) -> (r: Phase)
        ensures
            r == self.phase(),
    {
        self.phase
    }

    /// Genuine image bytes written to flash so far.
    pub fn bytes_written(&self) -> (r: u32)
        ensures
            r == self.written(),
    {
        self.writer.bytes_written()
    }

    #[verifier::rlimit(80)]
    /// Takes the outcome of the last action and returns the next one. An
    /// event that does not answer the last action counts as its failure.
    pub fn step(&mut self, e: Event) -> (r: Action)
        requires
            old(self).wf(),
        ensures
            final(self).wf(),
            final(self).download_inv(),
            // The settings never change; the size is set only by the version
            // check, the erase region only by the end of the firmware headers.
            same_setup(*old(self), *final(self)),
            old(self).phase() != Phase::InfoHeader ==> final(self).size() == old(self).size(),
            old(self).phase() != Phase::FwHeader ==> final(self).erase_total() == old(
                self,
            ).erase_total(),
            // The download's record changes only as the actions show: bytes
            // arrive only on image reads, each write and erase call issued is
            // appended, and the writer moves only on reads, at the start of
            // streaming, and when the download session opens.
            old(self).phase() != Phase::FwHeader ==> final(self).downloading() == old(
                self,
            ).downloading(),
            old(self).phase() != Phase::FwHeader && old(self).phase() != Phase::StreamReading
                ==> final(self).received() == old(self).received() && final(self).ended() == old(
                self,
            ).ended(),
            old(self).phase() != Phase::FwHeader ==> {
                &&& r matches Action::Write(w) ==> final(self).writes() == old(self).writes().push(
                    (w.offset as nat, w.data@),
                )
                &&& !(r is Write) ==> final(self).writes() == old(self).writes()
                &&& r matches Action::Erase(a, b) ==> final(self).erases() == old(
                    self,
                ).erases().push((a as nat, b as nat))
                &&& !(r is Erase) ==> final(self).erases() == old(self).erases()
            },
            old(self).phase() != Phase::FwHeader && old(self).phase() != Phase::Erasing && old(
                self,
            ).phase() != Phase::StreamReading && old(self).phase() != Phase::Closing ==> final(self).written() == old(self).written() && final(self).pending_bytes() == old(
                self,
            ).pending_bytes(),
            // The phase that each action leads to.
            r is Close ==> final(self).phase() == Phase::Closing,
            r is Erase ==> final(self).phase() == Phase::Erasing,
            r is Write ==> final(self).phase() == Phase::StreamWriting || final(self).phase()
                == Phase::FinalWriting,
            r is Read ==> final(self).phase() == Phase::InfoHeader || final(self).phase()
                == Phase::FwHeader || final(self).phase() == Phase::StreamReading,
            r is Send ==> final(self).phase() == Phase::InfoSending || final(self).phase()
                == Phase::FwSending,
            r is Connect ==> final(self).phase() == Phase::InfoConnecting || final(self).phase()
                == Phase::FwConnecting,
            (old(self).phase() == Phase::Closing && old(self).after_close() == AfterClose::Download)
                ==> final(self).written() == 0 && final(self).pending_bytes().len() == 0
                && !final(self).downloading(),
            (old(self).phase() == Phase::Erasing && e is Erased && old(self).erased() >= old(
                self,
            ).erase_total()) ==> begin_stream_outcome(*old(self), r, *final(self)),
            // The partition is activated only once the session is closed and
            // exactly `size` bytes were written; the marker follows a
            // successful activation, the reset a successful marker.
            r is Activate ==> old(self).phase() == Phase::Closing && old(self).after_close()
                == AfterClose::Activate && final(self).written() == final(self).size()
                && final(self).phase() == Phase::Activating,
            r is MarkNew ==> old(self).phase() == Phase::Activating && e is Activated
                && final(self).phase() == Phase::Marking,
            r is Reboot ==> old(self).phase() == Phase::Marking && e is Marked && final(self).phase()
                == Phase::Rebooting,
            // A cycle ends with no session open.
            r is Finish ==> final(self).phase() == Phase::Done && (has_session(old(self).phase())
                ==> old(self).phase() == Phase::Closing),
            // A session is opened at the start, or once the previous one is closed.
            r is Connect ==> old(self).phase() == Phase::Idle || old(self).phase() == Phase::Closing,
            // Writes continue where the last one ended, are aligned, and stay
            // inside the erased region.
            r matches Action::Write(w) ==> w.offset == old(self).written() && w.data@.len()
                <= WRITE_BUFFER_SIZE && w.data@.len() % (
            WRITE_ALIGN as nat) == 0 && w.offset + w.data@.len() <= final(self).erase_total()
                && final(self).erased() == final(self).erase_total(),
            r matches Action::Erase(a, b) ==> a < b && b as nat <= final(self).erase_total() && b
                - a <= ERASE_CHUNK && final(self).erased() == b as nat && final(self).erase_total()
                == erase_len(final(self).size()),
            old(self).phase() == Phase::Idle ==> r is Connect && final(self).phase()
                == Phase::InfoConnecting,
            old(self).phase() == Phase::InfoConnecting ==> if e is Connected {
                (r matches Action::Send(b) && b@ == old(self).version_req()) && final(self).phase()
                    == Phase::InfoSending
            } else {
                r == Action::Finish(Err(Error::Connection))
            },
            old(self).phase() == Phase::FwConnecting ==> if e is Connected {
                (r matches Action::Send(b) && b@ == old(self).firmware_req()) && final(self).phase()
                    == Phase::FwSending
            } else {
                r == Action::Finish(Err(Error::Connection))
            },
            old(self).phase() == Phase::InfoSending || old(self).phase() == Phase::FwSending ==> if e is Sent {
                &&& r == Action::Read(HEADER_BUFFER_SIZE)
                &&& final(self).header().len() == 0
                &&& final(self).phase() == if old(self).phase() == Phase::InfoSending {
                    Phase::InfoHeader
                } else {
                    Phase::FwHeader
                }
            } else {
                r is Close && final(self).after_close() == AfterClose::Fail(Error::Connection)
            },
            old(self).phase() == Phase::InfoHeader ==> match e {
                Event::Received(d) => info_read_outcome(
                    old(self).header(),
                    d@,
                    old(self).running(),
                    r,
                    *final(self),
                ),
                _ => r is Close && final(self).after_close() == AfterClose::Fail(Error::Info),
            },
            old(self).phase() == Phase::FwHeader ==> match e {
                Event::Received(d) => firmware_header_outcome(
                    old(self).header(),
                    d@,
                    old(self).size(),
                    r,
                    *final(self),
                ),
                _ => r is Close && final(self).after_close() == AfterClose::Fail(Error::Firmware),
            },
            old(self).phase() == Phase::Erasing ==> if e is Erased {
                &&& old(self).erased() < old(self).erase_total() ==> (r matches Action::Erase(a, b)
                    && a == old(self).erased() && b as nat == old(self).erased() + min(
                    ERASE_CHUNK as int,
                    old(self).erase_total() - old(self).erased(),
                ))
                &&& old(self).erased() >= old(self).erase_total() ==> r is Write || r is Read
            } else {
                r is Close && final(self).after_close() == AfterClose::Fail(Error::Ota)
            },
            old(self).phase() == Phase::StreamReading ==> match e {
                Event::Received(d) => if d@.len() == 0 {
                    end_of_stream_outcome(*old(self), r, *final(self))
                } else {
                    stream_read_outcome(*old(self), d@, r, *final(self))
                },
                Event::ReadFailed { end_of_stream: true } => end_of_stream_outcome(
                    *old(self),
                    r,
                    *final(self),
                ),
                _ => r is Close && final(self).after_close() == AfterClose::Fail(Error::Firmware),
            },
            old(self).phase() == Phase::StreamWriting ==> if e is Written {
                r == Action::Read((WRITE_BUFFER_SIZE - old(self).pending()) as usize)
                    && final(self).phase() == Phase::StreamReading
            } else {
                r is Close && final(self).after_close() == AfterClose::Fail(Error::Ota)
            },
            old(self).phase() == Phase::FinalWriting ==> if e is Written {
                r is Close && final(self).after_close() == if old(self).written() == old(
                    self,
                ).size() {
                    AfterClose::Activate
                } else {
                    AfterClose::Fail(Error::Firmware)
                }
            } else {
                r is Close && final(self).after_close() == AfterClose::Fail(Error::Ota)
            },
            old(self).phase() == Phase::Closing ==> match old(self).after_close() {
                AfterClose::Succeed => r == Action::Finish(Ok(())),
                AfterClose::Fail(x) => r == Action::Finish(Err(x)),
                AfterClose::Download => r is Connect && final(self).phase() == Phase::FwConnecting,
                AfterClose::Activate => r is Activate,
            },
            old(self).phase() == Phase::Activating ==> if e is Activated {
                r is MarkNew
            } else {
                r == Action::Finish(Err(Error::Ota))
            },
            old(self).phase() == Phase::Marking ==> if e is Marked {
                r is Reboot
            } else {
                r == Action::Finish(Err(Error::Ota))
            },
            old(self).phase() == Phase::Rebooting ==> r == Action::Finish(Ok(())),
            old(self).phase() == Phase::Done ==> r == Action::Finish(old(self).result()),
    {
        match self.phase {
            Phase::Idle => {
                self.phase = Phase::InfoConnecting;
                Action::Connect
            },
            Phase::InfoConnecting => match e {
                Event::Connected => {
                    self.phase = Phase::InfoSending;
                    Action::Send(copy_range(self.version_req.as_slice(), 0, self.version_req.len()))
                },
                _ => self.finish(Err(Error::Connection)),
            },
            Phase::FwConnecting => match e {
                Event::Connected => {
                    self.phase = Phase::FwSending;
                    Action::Send(copy_range(self.firmware_req.as_slice(), 0, self.firmware_req.len()))
                },
                _ => self.finish(Err(Error::Connection)),
            },
            Phase::InfoSending | Phase::FwSending => match e {
                Event::Sent => {
                    self.header = Vec::new();
                    self.phase = if self.phase == Phase::InfoSending {
                        Phase::InfoHeader
                    } else {
                        Phase::FwHeader
                    };
                    Action::Read(HEADER_BUFFER_SIZE)
                },
                _ => self.close_with(AfterClose::Fail(Error::Connection)),
            },
            Phase::InfoHeader => match e {
                Event::Received(d) => self.on_info_bytes(d),
                _ => self.close_with(AfterClose::Fail(Error::Info)),
            },
            Phase::FwHeader => match e {
                Event::Received(d) => self.on_firmware_header_bytes(d),
                _ => self.close_with(AfterClose::Fail(Error::Firmware)),
            },
            Phase::Erasing => match e {
                Event::Erased => self.next_erase(),
                _ => self.close_with(AfterClose::Fail(Error::Ota)),
            },
            Phase::StreamReading => match e {
                Event::Received(d) => {
                    if d.len() == 0 {
                        self.end_stream()
                    } else {
                        self.on_stream_bytes(d)
                    }
                },
                Event::ReadFailed { end_of_stream: true } => self.end_stream(),
                _ => self.close_with(AfterClose::Fail(Error::Firmware)),
            },
            Phase::StreamWriting => match e {
                Event::Written => {
                    self.phase = Phase::StreamReading;
                    Action::Read(self.writer.max_read())
                },
                _ => self.close_with(AfterClose::Fail(Error::Ota)),
            },
            Phase::FinalWriting => match e {
                Event::Written => self.verify_and_close(),
                _ => self.close_with(AfterClose::Fail(Error::Ota)),
            },
            Phase::Closing => match self.after_close {
                AfterClose::Succeed => self.finish(Ok(())),
                AfterClose::Fail(x) => self.finish(Err(x)),
                AfterClose::Download => {
                    self.writer = FlashWriter::new(WRITE_BUFFER_SIZE);
                    self.phase = Phase::FwConnecting;
                    Action::Connect
                },
                AfterClose::Activate => {
                    self.phase = Phase::Activating;
                    Action::Activate
                },
            },
            Phase::Activating => match e {
                Event::Activated => {
                    self.phase = Phase::Marking;
                    Action::MarkNew
                },
                _ => self.finish(Err(Error::Ota)),
            },
            Phase::Marking => match e {
                Event::Marked => {
                    self.phase = Phase::Rebooting;
                    Action::Reboot
                },
                _ => self.finish(Err(Error::Ota)),
            },
            Phase::Rebooting => self.finish(Ok(())),
            Phase::Done => Action::Finish(self.result),
        }
    }

    fn finish(&mut self, res: Result<(), Error>) -> (r: Action)
        requires
            old(self).wf(),
        ensures
            final(self).wf(),
            r == Action::Finish(res),
            final(self).phase() == Phase::Done,
            same_setup(*old(self), *final(self)),
            same_download(*old(self), *final(self)),
    {
        self.phase = Phase::Done;
        self.result = res;
        Action::Finish(res)
    }

    fn close_with(&mut self, then: AfterClose) -> (r: Action)
        requires
            old(self).wf(),
            has_session(old(self).phase()),
            then == AfterClose::Download ==> !old(self).downloading(),
            then == AfterClose::Activate ==> old(self).downloading() && old(self).ended()
                && old(self).written() == old(self).size(),
        ensures
            final(self).wf(),
            r is Close,
            final(self).phase() == Phase::Closing,
            final(self).after_close() == then,
            same_setup(*old(self), *final(self)),
            same_download(*old(self), *final(self)),
    {
        self.after_close = then;
        self.phase = Phase::Closing;
        Action::Close
    }

    /// Appends one read to the header buffer.
    fn take_header_bytes(&mut self, data: &Vec<u8>) -> (r: bool)
        requires
            old(self).wf(),
        ensures
            final(self).wf(),
            r == (data@.len() > 0 && data@.len() <= HEADER_BUFFER_SIZE - old(self).header().len()),
            r ==> final(self).header() == old(self).header() + data@,
            !r ==> final(self).header() == old(self).header(),
            final(self).phase() == old(self).phase(),
            same_setup(*old(self), *final(self)),
            same_download(*old(self), *final(self)),
    {
        if data.len() == 0 || data.len() > HEADER_BUFFER_SIZE - self.header.len() {
            return false;
        }
        append_bytes(&mut self.header, data.as_slice());
        true
    }

    /// One read of the version-check response.
    fn on_info_bytes(&mut self, data: Vec<u8>) -> (r: Action)
        requires
            old(self).wf(),
            old(self).phase() == Phase::InfoHeader,
        ensures
            final(self).wf(),
            info_read_outcome(old(self).header(), data@, old(self).running(), r, *final(self)),
            same_setup(*old(self), *final(self)),
            final(self).downloading() == old(self).downloading(),
            final(self).received() == old(self).received(),
            final(self).writes() == old(self).writes(),
            final(self).erases() == old(self).erases(),
            final(self).ended() == old(self).ended(),
            final(self).written() == old(self).written(),
            final(self).pending_bytes() == old(self).pending_bytes(),
            final(self).erase_total() == old(self).erase_total(),
    {
        if !self.take_header_bytes(&data) {
            return self.close_with(AfterClose::Fail(Error::Info));
        }
        match find_header_end(self.header.as_slice()) {
            Some(p) => {
                let body = copy_range(self.header.as_slice(), p, self.header.len());
                match decide_update(body.as_slice(), &self.running) {
                    Ok(Decision::Skip) => self.close_with(AfterClose::Succeed),
                    Ok(Decision::Update(info)) => {
                        self.size = info.size;
                        self.close_with(AfterClose::Download)
                    },
                    Err(e) => self.close_with(AfterClose::Fail(e)),
                }
            },
            None => {
                if self.header.len() == HEADER_BUFFER_SIZE {
                    self.close_with(AfterClose::Fail(Error::Info))
                } else {
                    Action::Read(HEADER_BUFFER_SIZE - self.header.len())
                }
            },
        }
    }

    /// One read of the firmware response's headers.
    fn on_firmware_header_bytes(&mut self, data: Vec<u8>) -> (r: Action)
        requires
            old(self).wf(),
            old(self).phase() == Phase::FwHeader,
        ensures
            final(self).wf(),
            firmware_header_outcome(old(self).header(), data@, old(self).size(), r, *final(self)),
            same_setup(*old(self), *final(self)),
            final(self).size() == old(self).size(),
            r matches Action::Write(w) ==> w.offset == old(self).written() && w.data@.len()
                <= WRITE_BUFFER_SIZE && w.data@.len() % (
            WRITE_ALIGN as nat) == 0 && w.offset + w.data@.len() <= final(self).erase_total()
                && final(self).erased() == final(self).erase_total(),
            r matches Action::Erase(a, b) ==> a < b && b as nat <= final(self).erase_total() && b
                - a <= ERASE_CHUNK && final(self).erased() == b as nat && final(self).erase_total()
                == erase_len(final(self).size()),
    {
        if !self.take_header_bytes(&data) {
            return self.close_with(AfterClose::Fail(Error::Firmware));
        }
        match find_header_end(self.header.as_slice()) {
            Some(p) => {
                if self.header.len() - p > self.size as usize {
                    return self.close_with(AfterClose::Fail(Error::Firmware));
                }
                let total = match erase_length(self.size) {
                    Some(t) => t,
                    None => return self.close_with(AfterClose::Fail(Error::Ota)),
                };
                proof {
                    lemma_erase_len_bounds(self.size as nat);
                }
                self.leftover = copy_range(self.header.as_slice(), p, self.header.len());
                self.erase = EraseCursor::new(total, ERASE_CHUNK);
                self.downloading = Ghost(true);
                self.ended = Ghost(false);
                self.received = Ghost(self.leftover@);
                self.writes = Ghost(Seq::empty());
                self.erases = Ghost(Seq::empty());
                self.phase = Phase::Erasing;
                proof {
                    assert(self.erases@ + self.erase.remaining() =~= erase_ranges(
                        0,
                        total as nat,
                        ERASE_CHUNK as nat,
                    ));
                    assert(written_data(self.writes@) =~= self.received@.subrange(0, 0));
                    assert(self.writer@.pending + self.leftover@ =~= self.received@.subrange(
                        0,
                        self.received@.len() as int,
                    ));
                }
                self.next_erase()
            },
            None => {
                if self.header.len() == HEADER_BUFFER_SIZE {
                    self.close_with(AfterClose::Fail(Error::Firmware))
                } else {
                    Action::Read(HEADER_BUFFER_SIZE - self.header.len())
                }
            },
        }
    }

    /// The next erase call, or the start of the download once all is erased.
    fn next_erase(&mut self) -> (r: Action)
        requires
            old(self).wf(),
            old(self).phase() == Phase::Erasing,
        ensures
            final(self).wf(),
            same_setup(*old(self), *final(self)),
            final(self).size() == old(self).size(),
            final(self).erase_total() == old(self).erase_total(),
            final(self).downloading() == old(self).downloading(),
            final(self).ended() == old(self).ended(),
            old(self).erased() < old(self).erase_total() ==> {
                &&& r matches Action::Erase(a, b) && a == old(self).erased() && b
                    == final(self).erased() && b as nat == old(self).erased() + min(
                    ERASE_CHUNK as int,
                    old(self).erase_total() - old(self).erased(),
                ) && final(self).erases() == old(self).erases().push((a as nat, b as nat))
                &&& final(self).phase() == Phase::Erasing
                &&& final(self).received() == old(self).received()
                &&& final(self).writes() == old(self).writes()
                &&& final(self).leftover() == old(self).leftover()
                &&& final(self).written() == old(self).written()
                &&& final(self).pending_bytes() == old(self).pending_bytes()
            },
            old(self).erased() >= old(self).erase_total() ==> begin_stream_outcome(
                *old(self),
                r,
                *final(self),
            ),
            r matches Action::Write(w) ==> w.offset == old(self).written() && w.data@.len()
                <= WRITE_BUFFER_SIZE && w.data@.len() % (
            WRITE_ALIGN as nat) == 0 && w.offset + w.data@.len() <= final(self).erase_total()
                && final(self).erased() == final(self).erase_total(),
            r matches Action::Erase(a, b) ==> a < b && b as nat <= final(self).erase_total() && b
                - a <= ERASE_CHUNK && final(self).erased() == b as nat && final(self).erase_total()
                == erase_len(final(self).size()),
    {
        let ghost before = self.erase.remaining();
        match self.erase.next_range() {
            Some((a, b)) => {
                self.erases = Ghost(self.erases@.push((a as nat, b as nat)));
                proof {
                    assert(before[0] == (a as nat, b as nat));
                    assert(self.erases@ + self.erase.remaining() =~= old(self).erases() + before);
                }
                Action::Erase(a, b)
            },
            None => self.begin_stream(),
        }
    }

    /// End of the image stream: the buffered tail is written padded, then
    /// the session is closed.
    #[verifier::rlimit(50)]
    fn end_stream(&mut self) -> (r: Action)
        requires
            old(self).wf(),
            old(self).phase() == Phase::StreamReading,
        ensures
            final(self).wf(),
            end_of_stream_outcome(*old(self), r, *final(self)),
            same_setup(*old(self), *final(self)),
            final(self).size() == old(self).size(),
            final(self).erase_total() == old(self).erase_total(),
            final(self).downloading() == old(self).downloading(),
            r matches Action::Write(w) ==> w.offset == old(self).written() && w.data@.len()
                <= WRITE_BUFFER_SIZE && w.data@.len() % (
            WRITE_ALIGN as nat) == 0 && w.offset + w.data@.len() <= final(self).erase_total()
                && final(self).erased() == final(self).erase_total(),
            r matches Action::Erase(a, b) ==> a < b && b as nat <= final(self).erase_total() && b
                - a <= ERASE_CHUNK && final(self).erased() == b as nat && final(self).erase_total()
                == erase_len(final(self).size()),
    {
        proof {
            lemma_erase_len_bounds(self.size as nat);
            lemma_finish_completes(
                self.writes@,
                self.writer@.written,
                self.writer@.pending,
                self.received@,
            );
        }
        let ghost before_writes = self.writes@;
        match self.writer.finish() {
            Some(w) => {
                assert(w.data@.len() <= WRITE_BUFFER_SIZE);
                self.writes = Ghost(before_writes.push((w.offset as nat, w.data@)));
                self.ended = Ghost(true);
                self.phase = Phase::FinalWriting;
                Action::Write(w)
            },
            None => {
                self.ended = Ghost(true);
                self.after_close = if self.writer.bytes_written() == self.size {
                    AfterClose::Activate
                } else {
                    AfterClose::Fail(Error::Firmware)
                };
                self.phase = Phase::Closing;
                Action::Close
            },
        }
    }

    /// All is written: activation follows only if the count is the size.
    fn verify_and_close(&mut self) -> (r: Action)
        requires
            old(self).wf(),
            is_streaming(old(self).phase()),
            old(self).ended(),
        ensures
            final(self).wf(),
            r is Close,
            final(self).phase() == Phase::Closing,
            final(self).after_close() == if old(self).written() == old(self).size() {
                AfterClose::Activate
            } else {
                AfterClose::Fail(Error::Firmware)
            },
            same_setup(*old(self), *final(self)),
            same_download(*old(self), *final(self)),
    {
        if self.writer.bytes_written() == self.size {
            self.close_with(AfterClose::Activate)
        } else {
            self.close_with(AfterClose::Fail(Error::Firmware))
        }
    }

    /// One read of the image.
    fn on_stream_bytes(&mut self, data: Vec<u8>) -> (r: Action)
        requires
            old(self).wf(),
            old(self).phase() == Phase::StreamReading,
            data@.len() > 0,
        ensures
            final(self).wf(),
            stream_read_outcome(*old(self), data@, r, *final(self)),
            same_setup(*old(self), *final(self)),
            final(self).size() == old(self).size(),
            final(self).erase_total() == old(self).erase_total(),
            final(self).downloading() == old(self).downloading(),
            final(self).ended() == old(self).ended(),
            r is Close ==> same_download(*old(self), *final(self)),
            r matches Action::Write(w) ==> w.offset == old(self).written() && w.data@.len()
                <= WRITE_BUFFER_SIZE && w.data@.len() % (
            WRITE_ALIGN as nat) == 0 && w.offset + w.data@.len() <= final(self).erase_total()
                && final(self).erased() == final(self).erase_total(),
            r matches Action::Erase(a, b) ==> a < b && b as nat <= final(self).erase_total() && b
                - a <= ERASE_CHUNK && final(self).erased() == b as nat && final(self).erase_total()
                == erase_len(final(self).size()),
    {
        let room = self.writer.max_read();
        if data.len() > room {
            return self.close_with(AfterClose::Fail(Error::Firmware));
        }
        let have = self.writer.bytes_written() as usize + self.writer.pending_len();
        if data.len() > self.size as usize - have {
            return self.close_with(AfterClose::Fail(Error::Firmware));
        }
        proof {
            lemma_erase_len_bounds(self.size as nat);
            let arrived = self.received@ + data@;
            assert(self.writer@.pending + self.leftover@ =~= self.writer@.pending);
            assert(arrived.subrange(0, self.writer@.written as int) =~= self.received@.subrange(
                0,
                self.writer@.written as int,
            ));
            assert(self.writer@.pending + data@ =~= arrived.subrange(
                self.writer@.written as int,
                arrived.len() as int,
            ));
            lemma_push_keeps_prefix(
                self.writes@,
                self.writer@.written,
                self.writer@.pending,
                data@,
                arrived,
            );
        }
        let ghost before_writes = self.writes@;
        self.received = Ghost(self.received@ + data@);
        match self.writer.push(data.as_slice()) {
            Some(w) => {
                self.writes = Ghost(before_writes.push((w.offset as nat, w.data@)));
                self.phase = Phase::StreamWriting;
                Action::Write(w)
            },
            None => Action::Read(self.writer.max_read()),
        }
    }

    /// The image region is erased: feeds what followed the headers.
    fn begin_stream(&mut self) -> (r: Action)
        requires
            old(self).wf(),
            old(self).phase() == Phase::Erasing,
            old(self).erased() == old(self).erase_total(),
        ensures
            final(self).wf(),
            begin_stream_outcome(*old(self), r, *final(self)),
            same_setup(*old(self), *final(self)),
            final(self).size() == old(self).size(),
            final(self).erase_total() == old(self).erase_total(),
            final(self).erased() == final(self).erase_total(),
            final(self).downloading() == old(self).downloading(),
            final(self).ended() == old(self).ended(),
            r matches Action::Write(w) ==> w.offset == 0 && w.data@.len() <= WRITE_BUFFER_SIZE
                && w.data@.len() % (WRITE_ALIGN as nat) == 0
                && w.offset + w.data@.len() <= final(self).erase_total(),
    {
        proof {
            lemma_erase_len_bounds(self.size as nat);
            assert(Seq::<u8>::empty() + self.leftover@ =~= self.received@.subrange(
                0,
                self.received@.len() as int,
            ));
            assert(self.writer@.pending =~= Seq::<u8>::empty());
            lemma_push_keeps_prefix(self.writes@, 0, Seq::empty(), self.leftover@, self.received@);
        }
        let ghost pre = push_step(0, Seq::empty(), self.leftover@);
        let leftover = copy_range(self.leftover.as_slice(), 0, self.leftover.len());
        assert(leftover@ == self.leftover@);
        assert(self.writer@.pending == Seq::<u8>::empty());
        self.leftover = Vec::new();
        let ghost before_writes = self.writes@;
        let r = match self.writer.push(leftover.as_slice()) {
            Some(w) => {
                assert(pre.2 == Some((w.offset as nat, w.data@)));
                self.writes = Ghost(before_writes.push((w.offset as nat, w.data@)));
                self.phase = Phase::StreamWriting;
                Action::Write(w)
            },
            None => {
                assert(pre.2 is None);
                self.phase = Phase::StreamReading;
                Action::Read(self.writer.max_read())
            },
        };
        proof {
            assert(self.writer@.pending + self.leftover@ =~= self.writer@.pending);
        }
        r
    }
}

/// When a cycle reaches activation, the download it made is complete and
/// exact. Exactly `size` bytes were received and counted. The erase calls
/// issued are the whole plan for the image size: they start at 0, each
/// starts where the one before ended, none is empty or longer than
/// `ERASE_CHUNK`, and the last ends at `ceil(size / 4096) * 4096`. The
/// writes issued start at offset 0, follow one another, have aligned
/// lengths, and hold exactly the bytes received followed by erased-state
/// padding.
pub proof fn lemma_activation_follows_full_image(c: OtaCycle)
    requires
        c.download_inv(),
        activating(c),
    ensures
        c.received().len() == c.size(),
        c.written() == c.size(),
        c.erases() == erase_ranges(0, erase_len(c.size()), ERASE_CHUNK as nat),
        c.erases().len() == 0 <==> c.size() == 0,
        c.erases().len() > 0 ==> c.erases()[0].0 == 0 && c.erases()[c.erases().len() - 1].1
            == erase_len(c.size()),
        forall|k: int|
            0 <= k < c.erases().len() - 1 ==> #[trigger] c.erases()[k + 1].0 == c.erases()[k].1,
        forall|k: int|
            0 <= k < c.erases().len() ==> c.erases()[k].0 < #[trigger] c.erases()[k].1
                <= c.erases()[k].0 + ERASE_CHUNK,
        writes_contiguous(c.writes()),
        written_data(c.writes()) == padded(c.received()),
{
    assert(erase_ranges(c.erased(), c.erase_total(), ERASE_CHUNK as nat) =~= Seq::<
        (nat, nat),
    >::empty());
    assert(c.erases() + Seq::<(nat, nat)>::empty() =~= c.erases());
    lemma_erase_plan(c.size(), ERASE_CHUNK as nat);
    if c.size() > 0 {
        assert(erase_len(c.size()) > 0);
    } else {
        assert(erase_len(0) == 0);
    }
}

} // verus!
