//! Serial ports: the listing shown to the user, the USB identity a session
//! remembers, finding the device again after it re-enumerates (possibly
//! under another path), and the esptool-style reset sequences.

use vstd::prelude::*;
use crate::text::same_text;

verus! {

/// USB details of a port, as the OS reports them.
pub struct UsbInfo {
    pub vid: u16,
    pub pid: u16,
    pub serial_number: Option<String>,
    pub product: Option<String>,
}

/// A port as the OS lists it.
pub struct PortInfo {
    pub port_name: String,
    /// `Some` for USB ports.
    pub usb: Option<UsbInfo>,
}

/// A port as shown to the user.
pub struct SerialPortEntry {
    pub name: String,
    pub vid: Option<u16>,
    pub pid: Option<u16>,
    pub serial_number: Option<String>,
    pub product: Option<String>,
}

/// What identifies a device across re-enumeration.
pub struct Identity {
    pub vid: Option<u16>,
    pub pid: Option<u16>,
    pub serial: Option<String>,
}

pub open spec fn opt_view(o: Option<String>) -> Option<Seq<char>> {
    match o {
        Some(s) => Some(s@),
        None => None,
    }
}

/// The identity of the first USB port listed under `path`, if any, else
/// the empty identity.
pub open spec fn identity_from(ports: Seq<PortInfo>, path: Seq<char>, i: int) -> (Option<u16>, Option<
    u16,
>, Option<Seq<char>>)
    decreases ports.len() - i,
{
    if i < 0 || i >= ports.len() {
        (None, None, None)
    } else if ports[i].port_name@ == path && ports[i].usb is Some {
        let u = ports[i].usb->0;
        (Some(u.vid), Some(u.pid), opt_view(u.serial_number))
    } else {
        identity_from(ports, path, i + 1)
    }
}

/// A USB port carries this identity.
pub open spec fn usb_matches(p: PortInfo, vid: Option<u16>, pid: Option<u16>, serial: Option<
    Seq<char>,
>) -> bool {
    &&& p.usb is Some
    &&& Some(p.usb->0.vid) == vid
    &&& Some(p.usb->0.pid) == pid
    &&& opt_view(p.usb->0.serial_number) == serial
}

/// Name of the first port, from index `i` on, that carries the identity.
pub open spec fn first_usb_match(ports: Seq<PortInfo>, vid: Option<u16>, pid: Option<u16>, serial: Option<
    Seq<char>,
>, i: int) -> Option<Seq<char>>
    decreases ports.len() - i,
{
    if i < 0 || i >= ports.len() {
        None
    } else if usb_matches(ports[i], vid, pid, serial) {
        Some(ports[i].port_name@)
    } else {
        first_usb_match(ports, vid, pid, serial, i + 1)
    }
}

/// Whether some port, from index `i` on, is listed under `path`.
pub open spec fn listed_from(ports: Seq<PortInfo>, path: Seq<char>, i: int) -> bool
    decreases ports.len() - i,
{
    if i < 0 || i >= ports.len() {
        false
    } else if ports[i].port_name@ == path {
        true
    } else {
        listed_from(ports, path, i + 1)
    }
}

/// Where a device is now: by USB identity first (the path may have
/// changed), else the original path if it is listed again.
pub open spec fn device_location(ports: Seq<PortInfo>, vid: Option<u16>, pid: Option<u16>, serial: Option<
    Seq<char>,
>, orig_path: Seq<char>) -> Option<Seq<char>> {
    if vid is Some && first_usb_match(ports, vid, pid, serial, 0) is Some {
        first_usb_match(ports, vid, pid, serial, 0)
    } else if listed_from(ports, orig_path, 0) {
        Some(orig_path)
    } else {
        None
    }
}

fn clone_opt(o: &Option<String>) -> (r: Option<String>)
    ensures
        opt_view(r) == opt_view(*o),
{
    match o {
        Some(s) => Some(s.clone()),
        None => None,
    }
}

fn opt_text_eq(a: &Option<String>, b: &Option<String>) -> (r: bool)
    ensures
        r == (opt_view(*a) == opt_view(*b)),
{
    match (a, b) {
        (Some(x), Some(y)) => x.eq(y),
        (None, None) => true,
        _ => false,
    }
}

/// The USB identity of the port at `path` (empty if it is not a USB port).
pub fn identity_of(ports: &Vec<PortInfo>, path: &str) -> (id: Identity)
    ensures
        (id.vid, id.pid, opt_view(id.serial)) == identity_from(ports@, path@, 0),
{
    let mut i: usize = 0;
    while i < ports.len()
        invariant
            i <= ports@.len(),
            identity_from(ports@, path@, 0) == identity_from(ports@, path@, i as int),
        decreases ports.len() - i,
    {
        let p = &ports[i];
        if same_text(p.port_name.as_str(), path) {
            match &p.usb {
                Some(u) => {
                    return Identity { vid: Some(u.vid), pid: Some(u.pid), serial: clone_opt(&u.serial_number) };
                },
                None => {},
            }
        }
        i = i + 1;
    }
    Identity { vid: None, pid: None, serial: None }
}

/// Finds the device again after re-enumeration (see [`device_location`]).
pub fn find_device(ports: &Vec<PortInfo>, id: &Identity, orig_path: &str) -> (r: Option<String>)
    ensures
        opt_view(r) == device_location(ports@, id.vid, id.pid, opt_view(id.serial), orig_path@),
{
    if id.vid.is_some() {
        let mut i: usize = 0;
        while i < ports.len()
            invariant
                i <= ports@.len(),
                first_usb_match(ports@, id.vid, id.pid, opt_view(id.serial), 0) == first_usb_match(
                    ports@,
                    id.vid,
                    id.pid,
                    opt_view(id.serial),
                    i as int,
                ),
            decreases ports.len() - i,
        {
            let p = &ports[i];
            match &p.usb {
                Some(u) => {
                    if Some(u.vid) == id.vid && Some(u.pid) == id.pid && opt_text_eq(
                        &u.serial_number,
                        &id.serial,
                    ) {
                        return Some(p.port_name.clone());
                    }
                },
                None => {},
            }
            i = i + 1;
        }
    }
    let mut j: usize = 0;
    while j < ports.len()
        invariant
            j <= ports@.len(),
            listed_from(ports@, orig_path@, 0) == listed_from(ports@, orig_path@, j as int),
            id.vid is Some ==> first_usb_match(ports@, id.vid, id.pid, opt_view(id.serial), 0) is None,
        decreases ports.len() - j,
    {
        if same_text(ports[j].port_name.as_str(), orig_path) {
            return Some(ports[j].port_name.clone());
        }
        j = j + 1;
    }
    None
}

/// The ports as shown to the user, in the order the OS lists them.
pub fn serial_list(ports: &Vec<PortInfo>) -> (r: Vec<SerialPortEntry>)
    ensures
        r@.len() == ports@.len(),
        forall|i: int|
            0 <= i < r@.len() ==> {
                let e = #[trigger] r@[i];
                let p = ports@[i];
                &&& e.name@ == p.port_name@
                &&& e.vid == (if p.usb is Some {
                    Some(p.usb->0.vid)
                } else {
                    None
                })
                &&& e.pid == (if p.usb is Some {
                    Some(p.usb->0.pid)
                } else {
                    None
                })
                &&& opt_view(e.serial_number) == (if p.usb is Some {
                    opt_view(p.usb->0.serial_number)
                } else {
                    None
                })
                &&& opt_view(e.product) == (if p.usb is Some {
                    opt_view(p.usb->0.product)
                } else {
                    None
                })
            },
{
    let mut r: Vec<SerialPortEntry> = Vec::new();
    let mut i: usize = 0;
    while i < ports.len()
        invariant
            i <= ports@.len(),
            r@.len() == i,
            forall|k: int|
                0 <= k < i ==> {
                    let e = #[trigger] r@[k];
                    let p = ports@[k];
                    &&& e.name@ == p.port_name@
                    &&& e.vid == (if p.usb is Some {
                        Some(p.usb->0.vid)
                    } else {
                        None
                    })
                    &&& e.pid == (if p.usb is Some {
                        Some(p.usb->0.pid)
                    } else {
                        None
                    })
                    &&& opt_view(e.serial_number) == (if p.usb is Some {
                        opt_view(p.usb->0.serial_number)
                    } else {
                        None
                    })
                    &&& opt_view(e.product) == (if p.usb is Some {
                        opt_view(p.usb->0.product)
                    } else {
                        None
                    })
                },
        decreases ports.len() - i,
    {
        let p = &ports[i];
        let e = match &p.usb {
            Some(u) => SerialPortEntry {
                name: p.port_name.clone(),
                vid: Some(u.vid),
                pid: Some(u.pid),
                serial_number: clone_opt(&u.serial_number),
                product: clone_opt(&u.product),
            },
            None => SerialPortEntry {
                name: p.port_name.clone(),
                vid: None,
                pid: None,
                serial_number: None,
                product: None,
            },
        };
        r.push(e);
        i = i + 1;
    }
    r
}

proof fn lemma_identity_found_from(ports: Seq<PortInfo>, path: Seq<char>, i: int)
    requires
        0 <= i,
    ensures
        ({
            let (vid, pid, serial) = identity_from(ports, path, i);
            vid is Some ==> first_usb_match(ports, vid, pid, serial, i) is Some && usb_matches(
                ports[first_index_usb(ports, vid, pid, serial, i)],
                vid,
                pid,
                serial,
            )
        }),
    decreases ports.len() - i,
{
    if i < ports.len() {
        lemma_identity_found_from(ports, path, i + 1);
        let (vid, pid, serial) = identity_from(ports, path, i);
        if !(ports[i].port_name@ == path && ports[i].usb is Some) && vid is Some {
            lemma_first_match_monotone(ports, vid, pid, serial, i);
        }
    }
}

/// The index of the port that [`first_usb_match`] names.
pub open spec fn first_index_usb(ports: Seq<PortInfo>, vid: Option<u16>, pid: Option<u16>, serial: Option<
    Seq<char>,
>, i: int) -> int
    decreases ports.len() - i,
{
    if i < 0 || i >= ports.len() {
        i
    } else if usb_matches(ports[i], vid, pid, serial) {
        i
    } else {
        first_index_usb(ports, vid, pid, serial, i + 1)
    }
}

proof fn lemma_first_match_monotone(ports: Seq<PortInfo>, vid: Option<u16>, pid: Option<u16>, serial: Option<
    Seq<char>,
>, i: int)
    requires
        0 <= i < ports.len(),
        first_usb_match(ports, vid, pid, serial, i + 1) is Some ==> usb_matches(
            ports[first_index_usb(ports, vid, pid, serial, i + 1)],
            vid,
            pid,
            serial,
        ),
    ensures
        first_usb_match(ports, vid, pid, serial, i + 1) is Some ==> first_usb_match(
            ports,
            vid,
            pid,
            serial,
            i,
        ) is Some && usb_matches(ports[first_index_usb(ports, vid, pid, serial, i)], vid, pid, serial),
{
}

proof fn lemma_first_index_in_range(ports: Seq<PortInfo>, vid: Option<u16>, pid: Option<u16>, serial: Option<
    Seq<char>,
>, i: int)
    requires
        0 <= i,
        first_usb_match(ports, vid, pid, serial, i) is Some,
    ensures
        i <= first_index_usb(ports, vid, pid, serial, i) < ports.len(),
        first_usb_match(ports, vid, pid, serial, i) == Some(
            ports[first_index_usb(ports, vid, pid, serial, i)].port_name@,
        ),
    decreases ports.len() - i,
{
    if i < ports.len() && !usb_matches(ports[i], vid, pid, serial) {
        lemma_first_index_in_range(ports, vid, pid, serial, i + 1);
    }
}

/// A device seen at `path` is found again in the same listing: the identity
/// taken from `path` leads back to a listed port, and that port carries the
/// same identity (it is `path` itself unless an earlier port carries the same
/// USB identity).
pub proof fn lemma_device_found_again(ports: Seq<PortInfo>, path: Seq<char>)
    requires
        listed_from(ports, path, 0),
    ensures
        ({
            let (vid, pid, serial) = identity_from(ports, path, 0);
            let found = device_location(ports, vid, pid, serial, path);
            &&& found is Some
            &&& vid is Some ==> exists|k: int|
                0 <= k < ports.len() && ports[k].port_name@ == found->0 && usb_matches(
                    #[trigger] ports[k],
                    vid,
                    pid,
                    serial,
                )
            &&& vid is None ==> found == Some(path)
        }),
{
    lemma_identity_found_from(ports, path, 0);
    let (vid, pid, serial) = identity_from(ports, path, 0);
    if vid is Some {
        lemma_first_index_in_range(ports, vid, pid, serial, 0);
        let k = first_index_usb(ports, vid, pid, serial, 0);
        assert(ports[k].port_name@ == device_location(ports, vid, pid, serial, path)->0);
    }
}

/// One step of a control-line sequence.
#[derive(PartialEq, Eq, Structural)]
pub enum SignalStep {
    /// Set DTR (true = asserted).
    Dtr(bool),
    /// Set RTS (true = asserted).
    Rts(bool),
    /// Wait this many milliseconds.
    SleepMs(u64),
}

/// The esptool-style reset sequence. `bootloader == false` resets the chip
/// to run (pulse EN through RTS); `true` enters the ROM download mode
/// (DTR drives GPIO0, RTS drives EN).
pub open spec fn esp_reset_steps(bootloader: bool) -> Seq<SignalStep> {
    if bootloader {
        seq![
            SignalStep::Dtr(false),
            SignalStep::Rts(true),
            SignalStep::SleepMs(100),
            SignalStep::Dtr(true),
            SignalStep::Rts(false),
            SignalStep::SleepMs(50),
            SignalStep::Dtr(false),
        ]
    } else {
        seq![
            SignalStep::Rts(true),
            SignalStep::SleepMs(100),
            SignalStep::Rts(false),
            SignalStep::Dtr(false),
        ]
    }
}

/// The reset sequence to play on the port's control lines.
pub fn esp_reset_sequence(bootloader: bool) -> (steps: Vec<SignalStep>)
    ensures
        steps@ == esp_reset_steps(bootloader),
{
    let mut v: Vec<SignalStep> = Vec::new();
    if bootloader {
        v.push(SignalStep::Dtr(false));
        v.push(SignalStep::Rts(true));  // EN low
        v.push(SignalStep::SleepMs(100));
        v.push(SignalStep::Dtr(true));  // GPIO0 low
        v.push(SignalStep::Rts(false));  // EN high
        v.push(SignalStep::SleepMs(50));
        v.push(SignalStep::Dtr(false));  // GPIO0 high
    } else {
        v.push(SignalStep::Rts(true));  // EN low
        v.push(SignalStep::SleepMs(100));
        v.push(SignalStep::Rts(false));  // EN high
        v.push(SignalStep::Dtr(false));
    }
    assert(v@ =~= esp_reset_steps(bootloader));
    v
}

/// What one read from the port gave.
pub enum ReadOutcome {
    /// This many bytes (possibly none).
    Bytes(usize),
    /// The read timed out with nothing to report.
    TimedOut,
    /// Any other error: the device is gone.
    Failed,
}

/// What the reader does next.
#[derive(PartialEq, Eq, Structural)]
pub enum ReadAction {
    /// Nothing to pass on; read again.
    Continue,
    /// Pass the bytes to the terminal, then read again.
    Forward,
    /// The device is gone: announce it and look for it by identity.
    Reconnect,
}

/// The reader's decision after a read.
pub fn read_action(outcome: ReadOutcome) -> (a: ReadAction)
    ensures
        a == (match outcome {
            ReadOutcome::Bytes(n) => if n == 0 {
                ReadAction::Continue
            } else {
                ReadAction::Forward
            },
            ReadOutcome::TimedOut => ReadAction::Continue,
            ReadOutcome::Failed => ReadAction::Reconnect,
        }),
{
    match outcome {
        ReadOutcome::Bytes(n) => if n == 0 {
            ReadAction::Continue
        } else {
            ReadAction::Forward
        },
        ReadOutcome::TimedOut => ReadAction::Continue,
        ReadOutcome::Failed => ReadAction::Reconnect,
    }
}

/// How long the reconnect poll waits between two looks for the device.
pub fn reconnect_poll_ms() -> (ms: u64)
    ensures
        ms == 800,
{
    800
}

/// What one round of the reconnect poll found.
pub enum PollEvent {
    /// The session was closed meanwhile.
    StopRequested,
    /// The device is not listed.
    NotFound,
    /// The device is listed again but could not be opened.
    OpenFailed,
    /// The device is listed again and is open.
    Reopened,
}

/// What the poll does next.
#[derive(PartialEq, Eq, Structural)]
pub enum PollAction {
    /// End the session's reader.
    Quit,
    /// Announce the reconnection and read again.
    Resume,
    /// Wait, then look again.
    Retry,
}

/// The reconnect poll's decision: a closed session ends it, a reopened
/// device resumes reading, anything else waits and looks again (for ever).
pub fn poll_action(ev: PollEvent) -> (a: PollAction)
    ensures
        a == (match ev {
            PollEvent::StopRequested => PollAction::Quit,
            PollEvent::Reopened => PollAction::Resume,
            PollEvent::NotFound | PollEvent::OpenFailed => PollAction::Retry,
        }),
{
    match ev {
        PollEvent::StopRequested => PollAction::Quit,
        PollEvent::Reopened => PollAction::Resume,
        PollEvent::NotFound | PollEvent::OpenFailed => PollAction::Retry,
    }
}

/// The notice written to the terminal when the device disappears.
pub fn disconnect_notice() -> (b: Vec<u8>)
    ensures
        b@ == "\r\n[serial disconnected - waiting for device...]\r\n"@.map_values(|c: char| c as u8),
{
    notice_bytes("\r\n[serial disconnected - waiting for device...]\r\n")
}

/// The notice written to the terminal when the device is back.
pub fn reconnect_notice() -> (b: Vec<u8>)
    ensures
        b@ == "\r\n[serial reconnected]\r\n"@.map_values(|c: char| c as u8),
{
    notice_bytes("\r\n[serial reconnected]\r\n")
}

fn notice_bytes(s: &str) -> (b: Vec<u8>)
    ensures
        b@ == s@.map_values(|c: char| c as u8),
{
    let cs = crate::text::chars_of(s);
    let mut b: Vec<u8> = Vec::new();
    let mut i: usize = 0;
    while i < cs.len()
        invariant
            cs@ == s@,
            i <= cs@.len(),
            b@ == cs@.take(i as int).map_values(|c: char| c as u8),
        decreases cs.len() - i,
    {
        let c = cs[i];
        b.push(c as u8);
        assert(cs@.take(i + 1) =~= cs@.take(i as int).push(c));
        assert(b@ =~= cs@.take(i + 1).map_values(|c: char| c as u8));
        i = i + 1;
    }
    assert(cs@.take(cs@.len() as int) =~= cs@);
    b
}

} // verus!
