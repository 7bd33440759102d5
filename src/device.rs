use vstd::prelude::*;
use vstd::utf8::*;

use crate::error::FsError;
use crate::path::opt_chars;
use crate::text::{
    chars_eq, chars_of, chars_start_with, starts_with, string_of, lossy_string, lossy_text, trim, trim_chars, trimmed,
    utf8_string,
};

verus! {

/// The platform families that have a way to name the machine.
#[derive(Debug, Clone, Copy, PartialEq, Eq, Structural)]
pub enum Platform {
    /// Reads the machine-id file.
    Linux,
    /// Asks the hardware profiler.
    MacOs,
    /// Asks the management-instrumentation utility.
    Windows,
    Unsupported,
}

/// What must be done outside to learn the device id.
#[derive(Debug, PartialEq, Eq)]
pub enum DeviceStep {
    ReadFile { path: String },
    Run { program: String, args: Vec<String> },
    Fail { error: FsError },
}

/// What came back from the step.
#[derive(Debug, PartialEq, Eq)]
pub enum DeviceOutcome {
    /// The file's text, or `None` where it could not be read.
    FileContents { contents: Option<String> },
    /// The program could not be started.
    SpawnFailed,
    /// The program ran to its end.
    Exited { success: bool, stdout: Vec<u8> },
}

pub open spec fn platform_spec(os: Seq<char>) -> Platform {
    if os == "linux"@ {
        Platform::Linux
    } else if os == "macos"@ {
        Platform::MacOs
    } else if os == "windows"@ {
        Platform::Windows
    } else {
        Platform::Unsupported
    }
}

/// The lines of `s`, split at each `'\n'` (the last one may be empty).
pub open spec fn lines_of(s: Seq<char>) -> Seq<Seq<char>>
    decreases s.len(),
{
    if s.len() == 0 {
        seq![Seq::<char>::empty()]
    } else {
        let p = lines_of(s.drop_last());
        if s.last() == '\n' {
            p.push(Seq::<char>::empty())
        } else {
            p.update(p.len() - 1, p.last().push(s.last()))
        }
    }
}

/// What follows the first `':'` of `l`, if it holds one.
pub open spec fn after_colon(l: Seq<char>) -> Option<Seq<char>>
    decreases l.len(),
{
    if l.len() == 0 {
        None
    } else if l[0] == ':' {
        Some(l.drop_first())
    } else {
        after_colon(l.drop_first())
    }
}

/// A line that names the hardware identifier and has a value after a colon.
pub open spec fn is_uuid_line(l: Seq<char>) -> bool {
    starts_with(trimmed(l), "Hardware UUID"@) && after_colon(l) is Some
}

/// The value of the first hardware identifier line, trimmed.
pub open spec fn profiler_value(ls: Seq<Seq<char>>) -> Option<Seq<char>>
    decreases ls.len(),
{
    if ls.len() == 0 {
        None
    } else if is_uuid_line(ls[0]) {
        Some(trimmed(after_colon(ls[0])->0))
    } else {
        profiler_value(ls.drop_first())
    }
}

/// The last line that is not blank, trimmed.
pub open spec fn last_filled(ls: Seq<Seq<char>>) -> Option<Seq<char>>
    decreases ls.len(),
{
    if ls.len() == 0 {
        None
    } else if trimmed(ls.last()).len() > 0 {
        Some(trimmed(ls.last()))
    } else {
        last_filled(ls.drop_last())
    }
}

pub open spec fn line_views(v: Seq<Vec<char>>) -> Seq<Seq<char>> {
    v.map_values(|l: Vec<char>| l@)
}

pub open spec fn result_view(r: Result<String, FsError>) -> Result<Seq<char>, FsError> {
    match r {
        Ok(s) => Ok(s@),
        Err(e) => Err(e),
    }
}

/// The device id that `outcome` gives on platform `p`.
pub open spec fn device_id_spec(p: Platform, outcome: DeviceOutcome) -> Result<Seq<char>, FsError> {
    match p {
        Platform::Unsupported => Err(FsError::UnsupportedPlatform),
        Platform::Linux => match outcome {
            DeviceOutcome::FileContents { contents: Some(c) } => Ok(trimmed(c@)),
            _ => Err(FsError::IoError),
        },
        Platform::MacOs => match outcome {
            DeviceOutcome::Exited { success: true, stdout } => match profiler_value(
                lines_of(lossy_text(stdout@)),
            ) {
                Some(v) => Ok(v),
                None => Err(FsError::ParseError),
            },
            _ => Err(FsError::IoError),
        },
        Platform::Windows => match outcome {
            DeviceOutcome::Exited { success: true, stdout } => if !valid_utf8(stdout@) {
                Err(FsError::InvalidEncoding)
            } else {
                match last_filled(lines_of(decode_utf8(stdout@))) {
                    Some(v) => Ok(v),
                    None => Err(FsError::ParseError),
                }
            },
            _ => Err(FsError::IoError),
        },
    }
}

proof fn lemma_lines_nonempty(s: Seq<char>)
    ensures
        lines_of(s).len() >= 1,
    decreases s.len(),
{
    if s.len() > 0 {
        lemma_lines_nonempty(s.drop_last());
    }
}

/// Splits `s` into its lines at each `'\n'`.
pub fn split_lines(s: &[char]) -> (r: Vec<Vec<char>>)
    ensures
        line_views(r@) == lines_of(s@),
{
    let mut done: Vec<Vec<char>> = Vec::new();
    let mut cur: Vec<char> = Vec::new();
    let mut i: usize = 0;
    assert(s@.subrange(0, 0) =~= Seq::<char>::empty());
    assert(line_views(done@).push(cur@) =~= seq![Seq::<char>::empty()]);
    while i < s.len()
        invariant
            i <= s@.len(),
            line_views(done@).push(cur@) == lines_of(s@.subrange(0, i as int)),
        decreases s@.len() - i,
    {
        let ghost pre = s@.subrange(0, i as int);
        let c = s[i];
        assert(s@.subrange(0, i + 1).drop_last() =~= pre);
        proof {
            lemma_lines_nonempty(pre);
        }
        if c == '\n' {
            let ghost old_done = done@;
            done.push(cur);
            cur = Vec::new();
            assert(line_views(done@) =~= line_views(old_done).push(
                lines_of(pre).last(),
            ));
            assert(line_views(done@).push(cur@) =~= lines_of(s@.subrange(0, i + 1)));
        } else {
            cur.push(c);
            assert(line_views(done@).push(cur@) =~= lines_of(s@.subrange(0, i + 1)));
        }
        i = i + 1;
    }
    assert(s@.subrange(0, s@.len() as int) =~= s@);
    done.push(cur);
    done
}

/// What follows the first `':'` of `l`, if it holds one.
pub fn text_after_colon(l: &[char]) -> (r: Option<Vec<char>>)
    ensures
        match r {
            Some(v) => after_colon(l@) == Some(v@),
            None => after_colon(l@) is None,
        },
{
    let mut i: usize = 0;
    assert(l@.subrange(0, l@.len() as int) =~= l@);
    while i < l.len()
        invariant
            i <= l@.len(),
            after_colon(l@) == after_colon(l@.subrange(i as int, l@.len() as int)),
        decreases l@.len() - i,
    {
        let ghost rest = l@.subrange(i as int, l@.len() as int);
        assert(rest.drop_first() =~= l@.subrange(i + 1, l@.len() as int));
        if l[i] == ':' {
            let mut v: Vec<char> = Vec::new();
            let mut k: usize = i + 1;
            while k < l.len()
                invariant
                    i < k <= l@.len(),
                    v@ == l@.subrange(i + 1, k as int),
                decreases l@.len() - k,
            {
                v.push(l[k]);
                k = k + 1;
            }
            return Some(v);
        }
        i = i + 1;
    }
    None
}

/// The trimmed value of the first `Hardware UUID` line of a hardware profiler's report.
pub fn profiler_uuid(report: &str) -> (r: Option<String>)
    ensures
        opt_chars(r) == profiler_value(lines_of(report@)),
{
    let chars = chars_of(report);
    let lines = split_lines(chars.as_slice());
    let label = chars_of("Hardware UUID");
    let ghost ls = lines_of(report@);
    let mut i: usize = 0;
    assert(ls.subrange(0, ls.len() as int) =~= ls);
    while i < lines.len()
        invariant
            line_views(lines@) == ls,
            ls == lines_of(report@),
            label@ == "Hardware UUID"@,
            i <= lines@.len(),
            profiler_value(ls) == profiler_value(ls.subrange(i as int, ls.len() as int)),
        decreases lines@.len() - i,
    {
        let ghost rest = ls.subrange(i as int, ls.len() as int);
        assert(rest.drop_first() =~= ls.subrange(i + 1, ls.len() as int));
        assert(rest[0] == lines@[i as int]@);
        let line = &lines[i];
        let t = trim_chars(line.as_slice());
        if chars_start_with(t.as_slice(), label.as_slice()) {
            match text_after_colon(line.as_slice()) {
                Some(v) => {
                    assert(is_uuid_line(rest[0]));
                    assert(profiler_value(rest) == Some(trimmed(v@)));
                    let value = trim_chars(v.as_slice());
                    let out = string_of(value.as_slice());
                    return Some(out);
                },
                None => {},
            }
        }
        i = i + 1;
    }
    None
}

/// The last line of `text` that is not blank, trimmed.
pub fn last_filled_line(text: &str) -> (r: Option<String>)
    ensures
        opt_chars(r) == last_filled(lines_of(text@)),
{
    let chars = chars_of(text);
    let lines = split_lines(chars.as_slice());
    let ghost ls = lines_of(text@);
    let mut j: usize = lines.len();
    assert(ls.subrange(0, ls.len() as int) =~= ls);
    while j > 0
        invariant
            line_views(lines@) == ls,
            ls == lines_of(text@),
            j <= lines@.len(),
            last_filled(ls) == last_filled(ls.subrange(0, j as int)),
        decreases j,
    {
        let ghost pre = ls.subrange(0, j as int);
        assert(pre.drop_last() =~= ls.subrange(0, j - 1));
        assert(pre.last() == lines@[j - 1]@);
        let t = trim_chars(lines[j - 1].as_slice());
        if t.len() > 0 {
            assert(last_filled(pre) == Some(t@));
            return Some(string_of(t.as_slice()));
        }
        j = j - 1;
    }
    None
}

/// The platform family of an operating system name as `std::env::consts::OS` gives it.
pub fn platform_of(os: &str) -> (r: Platform)
    ensures
        r == platform_spec(os@),
{
    let name = chars_of(os);
    let linux = chars_of("linux");
    let macos = chars_of("macos");
    let windows = chars_of("windows");
    if chars_eq(name.as_slice(), linux.as_slice()) {
        Platform::Linux
    } else if chars_eq(name.as_slice(), macos.as_slice()) {
        Platform::MacOs
    } else if chars_eq(name.as_slice(), windows.as_slice()) {
        Platform::Windows
    } else {
        Platform::Unsupported
    }
}

/// What must be done outside to learn the device id on platform `p`.
/// An unsupported platform fails at once, and no program is run.
pub fn device_id_step(p: Platform) -> (r: DeviceStep)
    ensures
        p == Platform::Unsupported <==> r == (DeviceStep::Fail { error: FsError::UnsupportedPlatform }),
        p == Platform::Linux <==> (r matches DeviceStep::ReadFile { path } && path@ == "/etc/machine-id"@),
        p == Platform::MacOs <==> (r matches DeviceStep::Run { program, args }
            && program@ == "system_profiler"@ && args@.len() == 1
            && args@[0]@ == "SPHardwareDataType"@),
        p == Platform::Windows <==> (r matches DeviceStep::Run { program, args }
            && program@ == "wmic"@ && args@.len() == 3 && args@[0]@ == "csproduct"@
            && args@[1]@ == "get"@ && args@[2]@ == "uuid"@),
{
    match p {
        Platform::Linux => DeviceStep::ReadFile { path: "/etc/machine-id".to_owned() },
        Platform::MacOs => {
            let mut args: Vec<String> = Vec::new();
            args.push("SPHardwareDataType".to_owned());
            DeviceStep::Run { program: "system_profiler".to_owned(), args }
        },
        Platform::Windows => {
            let mut args: Vec<String> = Vec::new();
            args.push("csproduct".to_owned());
            args.push("get".to_owned());
            args.push("uuid".to_owned());
            DeviceStep::Run { program: "wmic".to_owned(), args }
        },
        Platform::Unsupported => DeviceStep::Fail { error: FsError::UnsupportedPlatform },
    }
}

/// The device id, or why there is none, from what the step of platform `p` brought back.
pub fn device_id_result(p: Platform, outcome: &DeviceOutcome) -> (r: Result<String, FsError>)
    ensures
        result_view(r) == device_id_spec(p, *outcome),
{
    match p {
        Platform::Unsupported => Err(FsError::UnsupportedPlatform),
        Platform::Linux => match outcome {
            DeviceOutcome::FileContents { contents: Some(c) } => Ok(trim(c.as_str())),
            _ => Err(FsError::IoError),
        },
        Platform::MacOs => match outcome {
            DeviceOutcome::Exited { success: true, stdout } => {
                let text = lossy_string(stdout.as_slice());
                match profiler_uuid(text.as_str()) {
                    Some(v) => Ok(v),
                    None => Err(FsError::ParseError),
                }
            },
            _ => Err(FsError::IoError),
        },
        Platform::Windows => match outcome {
            DeviceOutcome::Exited { success: true, stdout } => match utf8_string(stdout.clone()) {
                None => Err(FsError::InvalidEncoding),
                Some(text) => match last_filled_line(text.as_str()) {
                    Some(v) => Ok(v),
                    None => Err(FsError::ParseError),
                },
            },
            _ => Err(FsError::IoError),
        },
    }
}

} // verus!
