//! Decisions and report lines of the command-line client's device commands:
//! raw calls, recording, status, scripts and discovery.

use vstd::prelude::*;
use vstd::string::{StringExecFns, StringSliceAdditionalSpecFns};
use crate::rpc::script::ScriptInfo;
use crate::text::{decimal, push_decimal, str_chars, string_push};

verus! {

// ── Raw calls ──────────────────────────────────────────────────────────

/// The request path for a method given on the command line: a path as
/// given when it starts with `/`, otherwise `/rpc/<method>`.
pub open spec fn call_path_text(method: Seq<char>) -> Seq<char> {
    if method.len() > 0 && method[0] == '/' {
        method
    } else {
        "/rpc/"@ + method
    }
}

/// The request path for a method given on the command line.
pub fn call_path(method: &str) -> (r: String)
    ensures
        r@ == call_path_text(method@),
{
    let v = str_chars(method);
    if v.len() > 0 && v[0] == '/' {
        String::from_str(method)
    } else {
        let mut s = String::from_str("/rpc/");
        s.append(method);
        s
    }
}

/// The lower-case hexadecimal digit for `n < 16`.
pub open spec fn hex_lower(n: nat) -> char {
    if n < 10 {
        ((n + 48) as u32) as char
    } else {
        ((n + 87) as u32) as char
    }
}

/// A byte as two lower-case hexadecimal digits.
pub open spec fn hex_byte_text(b: u8) -> Seq<char> {
    seq![hex_lower(b as nat / 16), hex_lower(b as nat % 16)]
}

/// Bytes in hexadecimal, separated by single spaces.
pub open spec fn hex_text(s: Seq<u8>) -> Seq<char>
    decreases s.len(),
{
    if s.len() == 0 {
        Seq::empty()
    } else if s.len() == 1 {
        hex_byte_text(s[0])
    } else {
        hex_text(s.drop_last()) + seq![' '] + hex_byte_text(s.last())
    }
}

/// How many leading bytes of a reply the hex preview shows.
pub const HEX_PREVIEW_LEN: usize = 32;

fn hex_lower_char(n: u8) -> (c: char)
    requires
        n < 16,
    ensures
        c == hex_lower(n as nat),
{
    if n < 10 {
        (n + 48) as char
    } else {
        (n + 87) as char
    }
}

/// The first [`HEX_PREVIEW_LEN`] bytes of `body` (all of it when shorter)
/// in lower-case hexadecimal, separated by spaces, for reporting a reply
/// that is not text.
pub fn hex_preview(body: &[u8]) -> (r: String)
    ensures
        r@ == hex_text(
            body@.take(
                if body@.len() < HEX_PREVIEW_LEN {
                    body@.len() as int
                } else {
                    HEX_PREVIEW_LEN as int
                },
            ),
        ),
{
    let n = if body.len() < HEX_PREVIEW_LEN {
        body.len()
    } else {
        HEX_PREVIEW_LEN
    };
    let mut out = String::new();
    let mut i: usize = 0;
    assert(body@.take(0) =~= Seq::<u8>::empty());
    while i < n
        invariant
            n <= body@.len(),
            i <= n,
            out@ == hex_text(body@.take(i as int)),
        decreases n - i,
    {
        let b = body[i];
        if i > 0 {
            string_push(&mut out, ' ');
        }
        string_push(&mut out, hex_lower_char(b / 16));
        string_push(&mut out, hex_lower_char(b % 16));
        assert(body@.take(i + 1).drop_last() =~= body@.take(i as int));
        assert(out@ =~= hex_text(body@.take(i + 1)));
        i = i + 1;
    }
    out
}

// ── Recording ──────────────────────────────────────────────────────────

/// Whether `s` ends with `p`.
pub open spec fn ends_with_chars(s: Seq<char>, p: Seq<char>) -> bool {
    s.len() >= p.len() && s.skip(s.len() - p.len()) == p
}

/// The method names whose replies are recorded: readers of status,
/// configuration, device information, method lists and updates.
pub open spec fn recorded_suffixes() -> Seq<Seq<char>> {
    seq!["GetStatus"@, "GetConfig"@, "GetDeviceInfo"@, "ListMethods"@, "CheckForUpdate"@]
}

fn chars_end_with(v: &Vec<char>, p: &str) -> (r: bool)
    ensures
        r == ends_with_chars(v@, p@),
{
    let pv = str_chars(p);
    if v.len() < pv.len() {
        return false;
    }
    let off = v.len() - pv.len();
    let mut k: usize = 0;
    while k < pv.len()
        invariant
            pv@ == p@,
            v@.len() == v.len(),
            off + pv@.len() == v@.len(),
            k <= pv@.len(),
            forall|j: int| 0 <= j < k ==> v@[off + j] == pv@[j],
        decreases pv@.len() - k,
    {
        if v[off + k] != pv[k] {
            assert(v@.skip(off as int)[k as int] != pv@[k as int]);
            return false;
        }
        k = k + 1;
    }
    assert(v@.skip(off as int) =~= pv@);
    true
}

/// Whether the reply of `method` is recorded: its name ends with one of
/// [`recorded_suffixes`].
pub fn is_recorded_method(method: &str) -> (r: bool)
    ensures
        r == exists|i: int| 0 <= i < 5 && ends_with_chars(method@, #[trigger] recorded_suffixes()[i]),
        r <==> (ends_with_chars(method@, "GetStatus"@) || ends_with_chars(method@, "GetConfig"@)
            || ends_with_chars(method@, "GetDeviceInfo"@) || ends_with_chars(method@, "ListMethods"@)
            || ends_with_chars(method@, "CheckForUpdate"@)),
{
    let v = str_chars(method);
    let r = chars_end_with(&v, "GetStatus") || chars_end_with(&v, "GetConfig") || chars_end_with(
        &v,
        "GetDeviceInfo",
    ) || chars_end_with(&v, "ListMethods") || chars_end_with(&v, "CheckForUpdate");
    assert(recorded_suffixes()[0] == "GetStatus"@);
    assert(recorded_suffixes()[1] == "GetConfig"@);
    assert(recorded_suffixes()[2] == "GetDeviceInfo"@);
    assert(recorded_suffixes()[3] == "ListMethods"@);
    assert(recorded_suffixes()[4] == "CheckForUpdate"@);
    proof {
        lemma_recorded_methods(method@);
    }
    r
}

/// The record command saves exactly the methods whose names end in
/// `GetStatus`, `GetConfig`, `GetDeviceInfo`, `ListMethods` or
/// `CheckForUpdate`.
pub proof fn lemma_recorded_methods(m: Seq<char>)
    ensures
        (exists|i: int| 0 <= i < 5 && ends_with_chars(m, #[trigger] recorded_suffixes()[i])) <==> (
        ends_with_chars(m, "GetStatus"@) || ends_with_chars(m, "GetConfig"@) || ends_with_chars(
            m,
            "GetDeviceInfo"@,
        ) || ends_with_chars(m, "ListMethods"@) || ends_with_chars(m, "CheckForUpdate"@)),
{
    assert(recorded_suffixes()[0] == "GetStatus"@);
    assert(recorded_suffixes()[1] == "GetConfig"@);
    assert(recorded_suffixes()[2] == "GetDeviceInfo"@);
    assert(recorded_suffixes()[3] == "ListMethods"@);
    assert(recorded_suffixes()[4] == "CheckForUpdate"@);
}

/// The file a recorded reply is written to, inside the device's directory.
pub fn record_file_name(method: &str) -> (r: String)
    ensures
        r@ == method@ + ".json"@,
{
    let mut s = String::from_str(method);
    s.append(".json");
    s
}

/// A recording run fails only when nothing was recorded and something
/// failed.
pub fn record_succeeded(recorded: u32, failed: u32) -> (r: bool)
    ensures
        r == !(recorded == 0 && failed > 0),
{
    !(recorded == 0 && failed > 0)
}

// ── Status ─────────────────────────────────────────────────────────────

/// Uptime in whole hours and the minutes past them: `<h>h <m>m`.
pub open spec fn uptime_text_spec(uptime: u64) -> Seq<char> {
    decimal(uptime as nat / 3600) + "h "@ + decimal((uptime as nat % 3600) / 60) + "m"@
}

/// Uptime in whole hours and the minutes past them: `<h>h <m>m`.
pub fn uptime_text(uptime: u64) -> (r: String)
    ensures
        r@ == uptime_text_spec(uptime),
{
    let mut s = String::new();
    push_decimal(&mut s, uptime / 3600);
    s.append("h ");
    push_decimal(&mut s, (uptime % 3600) / 60);
    s.append("m");
    assert(s@ =~= uptime_text_spec(uptime));
    s
}

// ── Compiling ──────────────────────────────────────────────────────────

/// Hard upper bound for the total script body on a device, in bytes; the
/// firmware rejects anything longer with error -103.
pub const SCRIPT_SIZE_BUDGET: usize = 65535;

/// The minified size as a percentage of the source size, rounded down, as
/// `<pct>%`; `n/a` for an empty source.
pub open spec fn size_ratio_text_spec(source_len: nat, minified_len: nat) -> Seq<char> {
    if source_len == 0 {
        "n/a"@
    } else {
        decimal(minified_len * 100 / source_len) + "%"@
    }
}

/// The minified size as a percentage of the source size, rounded down.
pub fn size_ratio_text(source_len: usize, minified_len: usize) -> (r: String)
    requires
        minified_len * 100 <= usize::MAX,
    ensures
        r@ == size_ratio_text_spec(source_len as nat, minified_len as nat),
{
    match (minified_len * 100).checked_div(source_len) {
        Some(pct) => {
            let mut s = String::new();
            push_decimal(&mut s, pct as u64);
            s.append("%");
            assert(s@ =~= size_ratio_text_spec(source_len as nat, minified_len as nat));
            s
        },
        None => String::from_str("n/a"),
    }
}

// ── Scripts ────────────────────────────────────────────────────────────

/// The name of the throwaway script that `run` creates at time `ts`.
pub fn ephemeral_script_name(ts: u64) -> (r: String)
    ensures
        r@ == "__run_"@ + decimal(ts as nat),
{
    let mut s = String::from_str("__run_");
    push_decimal(&mut s, ts);
    s
}

/// One line of the script listing: id, name, run state and start mode,
/// separated by tabs.
pub open spec fn script_line_text(s: ScriptInfo) -> Seq<char> {
    decimal(s.id as nat) + seq!['\t'] + match s.name {
        Some(n) => n@,
        None => "(unnamed)"@,
    } + seq!['\t'] + (if s.running {
        "running"@
    } else {
        "stopped"@
    }) + seq!['\t'] + (if s.enable {
        "auto"@
    } else {
        "manual"@
    })
}

/// One line of the script listing: id, name, run state and start mode,
/// separated by tabs.
pub fn script_list_line(s: &ScriptInfo) -> (r: String)
    ensures
        r@ == script_line_text(*s),
{
    let mut out = String::new();
    push_decimal(&mut out, s.id as u64);
    string_push(&mut out, '\t');
    match s.name {
        Some(n) => out.append(n),
        None => out.append("(unnamed)"),
    }
    string_push(&mut out, '\t');
    if s.running {
        out.append("running");
    } else {
        out.append("stopped");
    }
    string_push(&mut out, '\t');
    if s.enable {
        out.append("auto");
    } else {
        out.append("manual");
    }
    assert(out@ =~= script_line_text(*s));
    out
}

/// `running` or `stopped`, for a script's previous state.
pub fn run_state_word(was_running: bool) -> (r: &'static str)
    ensures
        r@ == if was_running {
            "running"@
        } else {
            "stopped"@
        },
{
    if was_running {
        "running"
    } else {
        "stopped"
    }
}

// ── Discovery ──────────────────────────────────────────────────────────

/// The service type that Shelly devices announce over mDNS.
pub const SHELLY_SERVICE: &'static str = "_shelly._tcp.local.";

/// The device name in an mDNS full name: without the `._shelly._tcp.local.`
/// suffix when it has one.
pub open spec fn device_name_text(fullname: Seq<char>) -> Seq<char> {
    if ends_with_chars(fullname, "._shelly._tcp.local."@) {
        fullname.take(fullname.len() - "._shelly._tcp.local."@.len())
    } else {
        fullname
    }
}

/// Texts joined with `sep` between them.
pub open spec fn joined(parts: Seq<Seq<char>>, sep: char) -> Seq<char>
    decreases parts.len(),
{
    if parts.len() == 0 {
        Seq::empty()
    } else if parts.len() == 1 {
        parts[0]
    } else {
        joined(parts.drop_last(), sep) + seq![sep] + parts.last()
    }
}

/// The views of a list of strings.
pub open spec fn string_views(v: Seq<String>) -> Seq<Seq<char>> {
    v.map_values(|s: String| s@)
}

/// The devices reported so far by a discovery run, by name.
pub struct Discovery {
    names: Vec<String>,
}

impl Discovery {
    /// The names reported so far, in order.
    pub closed spec fn reported(&self) -> Seq<Seq<char>> {
        string_views(self.names@)
    }

    /// No name is reported twice.
    pub open spec fn well_formed(&self) -> bool {
        forall|i: int, j: int|
            0 <= i < j < self.reported().len() ==> self.reported()[i] != self.reported()[j]
    }

    /// A discovery run that has reported nothing.
    pub fn new() -> (d: Self)
        ensures
            d.reported() == Seq::<Seq<char>>::empty(),
            d.well_formed(),
    {
        let d = Discovery { names: Vec::new() };
        assert(d.reported() =~= Seq::<Seq<char>>::empty());
        d
    }

    /// How many devices were reported.
    pub fn count(&self) -> (n: usize)
        ensures
            n == self.reported().len(),
    {
        self.names.len()
    }

    /// Takes in a resolved service: its full name and its IPv4 addresses.
    /// A device is reported the first time it resolves with at least one
    /// IPv4 address, as its name and its addresses joined with `,`; a
    /// later resolution of the same name, or one without IPv4 addresses,
    /// reports nothing.
    pub fn resolved(&mut self, fullname: &str, ipv4: &Vec<String>) -> (r: Option<(String, String)>)
        requires
            old(self).well_formed(),
        ensures
            final(self).well_formed(),
            ipv4@.len() == 0 || old(self).reported().contains(device_name_text(fullname@)) ==> r is None
                && final(self).reported() == old(self).reported(),
            ipv4@.len() > 0 && !old(self).reported().contains(device_name_text(fullname@)) ==> (r matches Some((n, a))
                && n@ == device_name_text(fullname@) && a@ == joined(string_views(ipv4@), ',')
                && final(self).reported() == old(self).reported().push(n@)),
    {
        if ipv4.len() == 0 {
            return None;
        }
        let name = device_name(fullname);
        let mut k: usize = 0;
        while k < self.names.len()
            invariant
                k <= self.names@.len(),
                self.names@ == old(self).names@,
                old(self).well_formed(),
                ipv4@.len() > 0,
                name@ == device_name_text(fullname@),
                forall|j: int| 0 <= j < k ==> self.names@[j]@ != name@,
            decreases self.names@.len() - k,
        {
            if self.names[k] == name {
                proof {
                    assert(self.reported()[k as int] == name@);
                }
                return None;
            }
            k = k + 1;
        }
        proof {
            assert forall|j: int| 0 <= j < self.reported().len() implies self.reported()[j]
                != name@ by {
                assert(self.reported()[j] == self.names@[j]@);
            }
        }
        let addrs = join_with_commas(ipv4);
        let reported_name = String::from_str(name.as_str());
        let ghost before = self.reported();
        self.names.push(name);
        assert(self.reported() =~= before.push(reported_name@));
        Some((reported_name, addrs))
    }
}

/// The device name in an mDNS full name: without the `._shelly._tcp.local.`
/// suffix when it has one.
pub fn device_name(fullname: &str) -> (r: String)
    ensures
        r@ == device_name_text(fullname@),
{
    let v = str_chars(fullname);
    let suffix = "._shelly._tcp.local.";
    if chars_end_with(&v, suffix) {
        let sv = str_chars(suffix);
        let mut s = String::new();
        let mut i: usize = 0;
        let stop = v.len() - sv.len();
        while i < stop
            invariant
                stop <= v@.len(),
                i <= stop,
                s@ == v@.take(i as int),
            decreases stop - i,
        {
            string_push(&mut s, v[i]);
            i = i + 1;
            assert(s@ =~= v@.take(i as int));
        }
        s
    } else {
        String::from_str(fullname)
    }
}

fn join_with_commas(parts: &Vec<String>) -> (r: String)
    ensures
        r@ == joined(string_views(parts@), ','),
{
    let mut out = String::new();
    let mut i: usize = 0;
    assert(string_views(parts@).take(0) =~= Seq::<Seq<char>>::empty());
    while i < parts.len()
        invariant
            i <= parts@.len(),
            out@ == joined(string_views(parts@).take(i as int), ','),
        decreases parts@.len() - i,
    {
        if i > 0 {
            string_push(&mut out, ',');
        }
        out.append(parts[i].as_str());
        assert(string_views(parts@).take(i + 1).drop_last() =~= string_views(parts@).take(i as int));
        assert(out@ =~= joined(string_views(parts@).take(i + 1), ','));
        i = i + 1;
    }
    assert(string_views(parts@).take(i as int) =~= string_views(parts@));
    out
}

// ── Script lifecycle ───────────────────────────────────────────────────

/// A device call in the life of a script that the client creates: create
/// the slot, upload the code, start it, stream its log, stop it, delete it,
/// or end the command.
#[derive(Debug, Clone, Copy, PartialEq, Eq, Structural)]
pub enum ScriptStep {
    Create,
    Upload,
    Start,
    StreamLogs,
    Stop,
    /// Delete the slot; `failed` records that the command has already
    /// failed.
    Delete { failed: bool },
    /// End the command, successfully or not.
    Exit { success: bool },
}

/// The call after `step`, given whether it succeeded. `run` is set for a
/// run-once script, which is started, logged, stopped and deleted; without
/// it the uploaded script is kept. A slot that was created is deleted when
/// its upload or start fails; a failed stop or delete only warns.
pub open spec fn script_step_after(step: ScriptStep, ok: bool, run: bool) -> ScriptStep {
    match step {
        ScriptStep::Create => if ok {
            ScriptStep::Upload
        } else {
            ScriptStep::Exit { success: false }
        },
        ScriptStep::Upload => if !ok {
            ScriptStep::Delete { failed: true }
        } else if run {
            ScriptStep::Start
        } else {
            ScriptStep::Exit { success: true }
        },
        ScriptStep::Start => if ok {
            ScriptStep::StreamLogs
        } else {
            ScriptStep::Delete { failed: true }
        },
        ScriptStep::StreamLogs => ScriptStep::Stop,
        ScriptStep::Stop => ScriptStep::Delete { failed: false },
        ScriptStep::Delete { failed } => ScriptStep::Exit { success: !failed },
        ScriptStep::Exit { success } => ScriptStep::Exit { success },
    }
}

/// The call after `step`: see [`script_step_after`].
pub fn next_script_step(step: ScriptStep, ok: bool, run: bool) -> (r: ScriptStep)
    ensures
        r == script_step_after(step, ok, run),
{
    match step {
        ScriptStep::Create => if ok {
            ScriptStep::Upload
        } else {
            ScriptStep::Exit { success: false }
        },
        ScriptStep::Upload => if !ok {
            ScriptStep::Delete { failed: true }
        } else if run {
            ScriptStep::Start
        } else {
            ScriptStep::Exit { success: true }
        },
        ScriptStep::Start => if ok {
            ScriptStep::StreamLogs
        } else {
            ScriptStep::Delete { failed: true }
        },
        ScriptStep::StreamLogs => ScriptStep::Stop,
        ScriptStep::Stop => ScriptStep::Delete { failed: false },
        ScriptStep::Delete { failed } => ScriptStep::Exit { success: !failed },
        ScriptStep::Exit { success } => ScriptStep::Exit { success },
    }
}

/// A created slot is never left behind by a failure: the command ends only
/// when the slot was never created, after the slot is deleted, or with a
/// kept upload; it fails only when creation failed or the slot was deleted
/// after a failed upload or start; and a run-once script is always stopped
/// before it is deleted after its log.
pub proof fn lemma_script_steps_clean_up(step: ScriptStep, ok: bool, run: bool)
    ensures
        ({
            let next = script_step_after(step, ok, run);
            &&& step !is Exit && next is Exit ==> step == ScriptStep::Create || step is Delete || (
            step == ScriptStep::Upload && ok && !run)
            &&& step !is Exit && next == (ScriptStep::Exit { success: false }) ==> (step
                == ScriptStep::Create && !ok) || step == (ScriptStep::Delete { failed: true })
            &&& next == (ScriptStep::Delete { failed: true }) ==> !ok && (step == ScriptStep::Upload
                || step == ScriptStep::Start)
            &&& step == ScriptStep::StreamLogs ==> next == ScriptStep::Stop
        }),
{
}

/// A call of the `status` command: the device's identity, then its full
/// status, then the end.
#[derive(Debug, Clone, Copy, PartialEq, Eq, Structural)]
pub enum StatusStep {
    DeviceInfo,
    FullStatus,
    Exit { success: bool },
}

/// The call after `step`, given whether it succeeded: without the device's
/// identity the command fails; a missing full status only warns.
pub open spec fn status_step_after(step: StatusStep, ok: bool) -> StatusStep {
    match step {
        StatusStep::DeviceInfo => if ok {
            StatusStep::FullStatus
        } else {
            StatusStep::Exit { success: false }
        },
        StatusStep::FullStatus => StatusStep::Exit { success: true },
        StatusStep::Exit { success } => StatusStep::Exit { success },
    }
}

/// The call after `step`: see [`status_step_after`].
pub fn next_status_step(step: StatusStep, ok: bool) -> (r: StatusStep)
    ensures
        r == status_step_after(step, ok),
{
    match step {
        StatusStep::DeviceInfo => if ok {
            StatusStep::FullStatus
        } else {
            StatusStep::Exit { success: false }
        },
        StatusStep::FullStatus => StatusStep::Exit { success: true },
        StatusStep::Exit { success } => StatusStep::Exit { success },
    }
}

} // verus!
