use vstd::prelude::*;
use vstd::string::StringSliceAdditionalSpecFns;
use crate::text::{chars_of, contains_str, has_text, lower_of, lowercase, utf8_lossy, from_utf8_lossy};

verus! {

/// A Steam account's name and password.
#[derive(Debug, Clone)]
pub struct LoginCredentials {
    pub username: String,
    pub password: String,
}

/// Whether the downloader holds a saved Steam login, and for whom.
#[derive(Debug, Clone)]
pub struct LoginState {
    pub is_logged_in: bool,
    pub username: Option<String>,
}

/// What the downloader reports to the interface while it runs.
#[derive(Debug, Clone)]
pub enum DepotDownloaderEvent {
    Output(String),
    Progress { current: u64, total: u64 },
    NeedsTwoFactor { session_id: u64, message: Option<String> },
    NeedsMobileConfirmation { session_id: u64 },
    LoginSuccess,
    LoginFailed(String),
    DownloadComplete,
    Error(String),
}

/// Where a download stands within a multi-step install task.
#[derive(Debug, Clone)]
pub struct DownloadTaskContext {
    pub version: u32,
    pub steps_total: u32,
    /// 1-based.
    pub step: u32,
    pub step_name: String,
}

// -------------------------------------------------------- escape sequences

/// The position after a CSI sequence's final byte (0x40 to 0x7E) at or
/// after `j`, or the end.
pub open spec fn csi_end(b: Seq<u8>, j: int) -> int
    decreases b.len() - j,
{
    if j < 0 || j >= b.len() {
        b.len() as int
    } else if 0x40 <= b[j] <= 0x7e {
        j + 1
    } else {
        csi_end(b, j + 1)
    }
}

/// The position after an OSC sequence's terminator (BEL, or ESC `\`) at or
/// after `j`, or the end.
pub open spec fn osc_end(b: Seq<u8>, j: int) -> int
    decreases b.len() - j,
{
    if j < 0 || j >= b.len() {
        b.len() as int
    } else if b[j] == 0x07 {
        j + 1
    } else if b[j] == 0x1b && j + 1 < b.len() && b[j + 1] == 0x5c {
        j + 2
    } else {
        osc_end(b, j + 1)
    }
}

/// The bytes from `i` on without terminal escape sequences and carriage
/// returns: CSI (ESC `[` ... final byte) and OSC (ESC `]` ... terminator)
/// sequences go whole, any other ESC goes with the byte after it, and a
/// lone ESC at the end stops the text.
pub open spec fn strip_escapes_from(b: Seq<u8>, i: int) -> Seq<u8>
    decreases b.len() - i,
{
    if i < 0 || i >= b.len() {
        Seq::empty()
    } else if b[i] == 0x1b {
        if i + 1 >= b.len() {
            Seq::empty()
        } else if b[i + 1] == 0x5b {
            if i < csi_end(b, i + 2) <= b.len() {
                strip_escapes_from(b, csi_end(b, i + 2))
            } else {
                Seq::empty()
            }
        } else if b[i + 1] == 0x5d {
            if i < osc_end(b, i + 2) <= b.len() {
                strip_escapes_from(b, osc_end(b, i + 2))
            } else {
                Seq::empty()
            }
        } else {
            strip_escapes_from(b, i + 2)
        }
    } else if b[i] == 0x0d {
        strip_escapes_from(b, i + 1)
    } else {
        seq![b[i]] + strip_escapes_from(b, i + 1)
    }
}

pub open spec fn strip_escapes(b: Seq<u8>) -> Seq<u8> {
    strip_escapes_from(b, 0)
}

proof fn lemma_csi_end(b: Seq<u8>, j: int)
    requires
        0 <= j,
    ensures
        j <= csi_end(b, j) <= b.len() || (j > b.len() && csi_end(b, j) == b.len()),
    decreases b.len() - j,
{
    if j < b.len() && !(0x40 <= b[j] <= 0x7e) {
        lemma_csi_end(b, j + 1);
    }
}

proof fn lemma_osc_end(b: Seq<u8>, j: int)
    requires
        0 <= j,
    ensures
        j <= osc_end(b, j) <= b.len() || (j > b.len() && osc_end(b, j) == b.len()),
    decreases b.len() - j,
{
    if j < b.len() && b[j] != 0x07 && !(b[j] == 0x1b && j + 1 < b.len() && b[j + 1] == 0x5c) {
        lemma_osc_end(b, j + 1);
    }
}

/// The bytes without terminal escape sequences and carriage returns.
pub fn strip_escape_bytes(b: &[u8]) -> (r: Vec<u8>)
    ensures
        r@ == strip_escapes(b@),
{
    let mut out: Vec<u8> = Vec::new();
    let mut i: usize = 0;
    while i < b.len()
        invariant
            i <= b.len(),
            out@ + strip_escapes_from(b@, i as int) == strip_escapes(b@),
        decreases b.len() - i,
    {
        let c = b[i];
        if c == 0x1b {
            if i + 1 >= b.len() {
                assert(out@ + Seq::<u8>::empty() == out@);
                return out;
            }
            let next = b[i + 1];
            if next == 0x5b {
                let mut j: usize = i + 2;
                let mut done = false;
                proof {
                    lemma_csi_end(b@, i + 2);
                }
                while j < b.len() && !done
                    invariant
                        i + 2 <= j <= b.len(),
                        !done ==> csi_end(b@, i + 2) == csi_end(b@, j as int),
                        done ==> csi_end(b@, i + 2) == j,
                    decreases b.len() - j,
                {
                    let d = b[j];
                    j += 1;
                    if 0x40 <= d && d <= 0x7e {
                        done = true;
                    }
                }
                assert(j == csi_end(b@, i + 2));
                i = j;
                continue;
            }
            if next == 0x5d {
                let mut j: usize = i + 2;
                let mut done = false;
                proof {
                    lemma_osc_end(b@, i + 2);
                }
                while j < b.len() && !done
                    invariant
                        i + 2 <= j <= b.len(),
                        !done ==> osc_end(b@, i + 2) == osc_end(b@, j as int),
                        done ==> osc_end(b@, i + 2) == j,
                    decreases b.len() - j,
                {
                    if b[j] == 0x07 {
                        j += 1;
                        done = true;
                    } else if b[j] == 0x1b && j + 1 < b.len() && b[j + 1] == 0x5c {
                        j += 2;
                        done = true;
                    } else {
                        j += 1;
                    }
                }
                assert(j == osc_end(b@, i + 2));
                i = j;
                continue;
            }
            i += 2;
            continue;
        }
        if c == 0x0d {
            i += 1;
            continue;
        }
        out.push(c);
        assert(out@ + strip_escapes_from(b@, i + 1) == strip_escapes(b@));
        i += 1;
    }
    assert(out@ + Seq::<u8>::empty() == out@);
    out
}

} // verus!

verus! {

/// Downloader output for display: the text without terminal escape
/// sequences and carriage returns.
pub fn strip_ansi(s: &str) -> (r: String)
    ensures
        r@ == utf8_lossy(strip_escapes(s.spec_bytes())),
{
    let out = strip_escape_bytes(s.as_bytes());
    from_utf8_lossy(&out)
}

/// Whether lower-case downloader output asks for a Steam Guard or e-mail code.
pub open spec fn twofactor_hint(l: Seq<char>) -> bool {
    has_text(l, "steam_guard_device_code_required"@) || has_text(l, "steam_guard_email_code_required"@)
        || has_text(l, "steam_guard_code_required"@) || has_text(l, "auth_polling_wait"@)
        || has_text(l, "steam guard"@) || has_text(l, "steamguard"@) || has_text(l, "two-factor"@)
        || has_text(l, "two factor"@) || has_text(l, "2fa"@) || (has_text(l, "auth"@) && (has_text(
        l,
        "code"@,
    ) || has_text(l, "steam"@) || has_text(l, "guard"@))) || (has_text(l, "enter"@) && has_text(
        l,
        "code"@,
    )) || has_text(l, "authentication code"@) || has_text(l, "security code"@) || has_text(
        l,
        "emailed"@,
    ) || (has_text(l, "email"@) && has_text(l, "code"@)) || (has_text(l, "sent"@) && has_text(
        l,
        "code"@,
    ))
}

/// Whether lower-cased downloader output asks for a Steam Guard or e-mail code.
pub fn twofactor_hint_in(lowered: &str) -> (r: bool)
    ensures
        r == twofactor_hint(lowered@),
{
    let l = chars_of(lowered);
    contains_str(&l, "steam_guard_device_code_required") || contains_str(&l, "steam_guard_email_code_required")
        || contains_str(&l, "steam_guard_code_required") || contains_str(&l, "auth_polling_wait")
        || contains_str(&l, "steam guard") || contains_str(&l, "steamguard") || contains_str(&l, "two-factor")
        || contains_str(&l, "two factor") || contains_str(&l, "2fa") || (contains_str(&l, "auth") && (contains_str(
        &l,
        "code",
    ) || contains_str(&l, "steam") || contains_str(&l, "guard"))) || (contains_str(&l, "enter") && contains_str(
        &l,
        "code",
    )) || contains_str(&l, "authentication code") || contains_str(&l, "security code") || contains_str(
        &l,
        "emailed",
    ) || (contains_str(&l, "email") && contains_str(&l, "code")) || (contains_str(&l, "sent") && contains_str(
        &l,
        "code",
    ))
}

/// Whether downloader output asks for a Steam Guard or e-mail code, in any
/// letter case.
pub fn looks_like_twofactor_needed(text: &str) -> (r: bool)
    ensures
        r == twofactor_hint(lower_of(text@)),
{
    let l = lowercase(text);
    twofactor_hint_in(l.as_str())
}

} // verus!
