//! Bluetooth glue: parsing the controller tool's device listing and
//! status output, and the state of the single discovery handle.

use vstd::prelude::*;
use vstd::string::*;

use crate::text::{
    eq_ascii_ci, has_substring, contains_str, join_char, join_with_spaces, lines_of, lines_spec,
    replace_char, replace_char_spec, split_whitespace_str, tokens,
};

verus! {

/// A device the controller knows, as one line of the device listing.
#[derive(Debug, Clone, PartialEq)]
pub struct BluetoothDevice {
    pub mac: String,
    pub name: String,
    pub connected: bool,
    pub paired: bool,
}

/// The mathematical image of a device record.
pub struct BluetoothDeviceData {
    pub mac: Seq<char>,
    pub name: Seq<char>,
    pub connected: bool,
    pub paired: bool,
}

impl View for BluetoothDevice {
    type V = BluetoothDeviceData;

    open spec fn view(&self) -> BluetoothDeviceData {
        BluetoothDeviceData {
            mac: self.mac@,
            name: self.name@,
            connected: self.connected,
            paired: self.paired,
        }
    }
}

impl DeepView for BluetoothDevice {
    type V = BluetoothDeviceData;

    open spec fn deep_view(&self) -> BluetoothDeviceData {
        self.view()
    }
}

/// A name that is just the device's address with dashes for colons is
/// a generated alias, not a real name: such entries are junk.
pub open spec fn is_mac_alias(name: Seq<char>, mac: Seq<char>) -> bool {
    eq_ascii_ci(replace_char_spec(name, '-', ':'), mac)
}

/// The device a listing line denotes: `Device <address> <name words>`,
/// skipped when the shape differs or the name is a generated alias.
pub open spec fn device_row(line: Seq<char>) -> Option<BluetoothDeviceData> {
    let t = tokens(line);
    if t.len() < 3 || t[0] != "Device"@ {
        None
    } else {
        let mac = t[1];
        let name = join_char(t.subrange(2, t.len() as int), ' ');
        if is_mac_alias(name, mac) {
            None
        } else {
            Some(BluetoothDeviceData { mac: mac, name: name, connected: false, paired: true })
        }
    }
}

/// The devices of all well-shaped lines, in listing order.
pub open spec fn device_rows(lines: Seq<Seq<char>>) -> Seq<BluetoothDeviceData>
    decreases lines.len(),
{
    if lines.len() == 0 {
        Seq::empty()
    } else {
        let rest = device_rows(lines.drop_last());
        match device_row(lines.last()) {
            Some(d) => rest.push(d),
            None => rest,
        }
    }
}

/// Parse one line of the device listing.
pub fn parse_device_line(line: &str) -> (r: Option<BluetoothDevice>)
    ensures
        match r {
            Some(d) => device_row(line@) == Some(d@),
            None => device_row(line@) is None,
        },
{
    let parts = split_whitespace_str(line);
    if parts.len() < 3 {
        return None;
    }
    proof {
        assert(parts.deep_view()[0] == parts@[0]@);
        assert(parts.deep_view()[1] == parts@[1]@);
    }
    if !crate::text::str_eq(parts[0].as_str(), "Device") {
        return None;
    }
    let mac = parts[1].clone();
    let name = join_with_spaces(&parts, 2, parts.len());
    let normalized = replace_char(name.as_str(), '-', ':');
    if crate::text::str_eq_ignore_ascii_case(normalized.as_str(), mac.as_str()) {
        return None;
    }
    Some(BluetoothDevice { mac, name, connected: false, paired: true })
}

/// Parse the whole device listing, dropping malformed lines and
/// generated aliases.
pub fn parse_device_list(text: &str) -> (r: Vec<BluetoothDevice>)
    ensures
        r.deep_view() == device_rows(lines_spec(text@)),
{
    let lines = lines_of(text);
    let ghost lv = lines.deep_view();
    let mut r: Vec<BluetoothDevice> = Vec::new();
    let mut li: usize = 0;
    proof {
        assert(lv.take(0) =~= Seq::<Seq<char>>::empty());
    }
    while li < lines.len()
        invariant
            li <= lines.len(),
            lv == lines.deep_view(),
            lv.len() == lines.len(),
            r.deep_view() == device_rows(lv.take(li as int)),
        decreases lines.len() - li,
    {
        let ghost done = lv.take(li as int);
        proof {
            assert(lv.take(li + 1).drop_last() =~= done);
            assert(lv.take(li + 1).last() == lv[li as int]);
            assert(lines@[li as int]@ == lv[li as int]);
        }
        match parse_device_line(lines[li].as_str()) {
            Some(d) => {
                let ghost dv = d@;
                let ghost r0 = r.deep_view();
                r.push(d);
                proof {
                    assert(device_rows(lv.take(li + 1)) == device_rows(done).push(dv));
                    assert(r.deep_view() =~= r0.push(dv));
                }
            },
            None => {
                proof {
                    assert(device_rows(lv.take(li + 1)) == device_rows(done));
                }
            },
        }
        li += 1;
    }
    proof {
        assert(lv.take(lines.len() as int) =~= lv);
    }
    r
}

/// The controller's status output reports power with a `Powered: yes`
/// line.
pub fn bluetooth_powered(status: &str) -> (r: bool)
    ensures
        r == has_substring(status@, "Powered: yes"@),
{
    contains_str(status, "Powered: yes")
}

/// The connect command's output announces success with the words
/// `Connection successful`; anything else is handed back verbatim as
/// the failure text.
pub fn connect_feedback(stdout: &str) -> (r: Result<String, String>)
    ensures
        match r {
            Ok(m) => has_substring(stdout@, "Connection successful"@) && m@ == "Connected"@,
            Err(m) => !has_substring(stdout@, "Connection successful"@) && m@ == stdout@,
        },
{
    if contains_str(stdout, "Connection successful") {
        Ok(String::from_str("Connected"))
    } else {
        Err(stdout.to_owned())
    }
}

/// The state of the single discovery handle, guarded by one lock in
/// the application: starting is idempotent while a scan runs, and
/// stopping unconditionally releases the handle.
pub struct ScanState {
    pub running: bool,
}

impl ScanState {
    /// No scan runs at first.
    pub fn new() -> (r: ScanState)
        ensures
            !r.running,
    {
        ScanState { running: false }
    }

    /// Request a scan: reports whether a new one must be spawned, which
    /// is the case exactly when none was running; a second start while
    /// one runs changes nothing.
    pub fn start(&mut self) -> (spawn: bool)
        ensures
            final(self).running,
            spawn == !old(self).running,
    {
        let spawn = !self.running;
        self.running = true;
        spawn
    }

    /// Release the handle: afterwards no scan runs, whatever ran
    /// before.
    pub fn stop(&mut self)
        ensures
            !final(self).running,
    {
        self.running = false;
    }
}

} // verus!
