//! Kernel version parsing and the CO-RE support decision.
use vstd::prelude::*;
use vstd::string::*;
use crate::text::{concat3, decimal, digit_char, push_decimal};

verus! {

/// Oldest kernel release with CO-RE support: 5.2.0.
pub const MIN_KERNEL_MAJOR: u32 = 5;
pub const MIN_KERNEL_MINOR: u32 = 2;
pub const MIN_KERNEL_PATCH: u32 = 0;

/// A kernel release `major.minor.patch`, ordered field by field.
#[derive(Debug, Clone, Copy, PartialEq, Eq, PartialOrd, Ord, Structural)]
pub struct KernelVersion {
    pub major: u32,
    pub minor: u32,
    pub patch: u32,
}

/// `a` comes no earlier than `b`, comparing major, then minor, then patch.
pub open spec fn version_ge(a: KernelVersion, b: KernelVersion) -> bool {
    a.major > b.major || (a.major == b.major && (a.minor > b.minor || (a.minor == b.minor && a.patch >= b.patch)))
}

/// The oldest release with CO-RE support.
pub open spec fn min_version() -> KernelVersion {
    KernelVersion { major: MIN_KERNEL_MAJOR, minor: MIN_KERNEL_MINOR, patch: MIN_KERNEL_PATCH }
}

/// `c` is an ASCII digit.
pub open spec fn is_digit(c: char) -> bool {
    '0' <= c && c <= '9'
}

/// The pieces of `s` between the characters that are not ASCII digits, as
/// `str::split` yields them (empty pieces included).
pub open spec fn digit_pieces(s: Seq<char>) -> Seq<Seq<char>>
    decreases s.len(),
{
    if s.len() == 0 {
        seq![Seq::empty()]
    } else {
        let p = digit_pieces(s.drop_last());
        if is_digit(s.last()) {
            p.update(p.len() - 1, p.last().push(s.last()))
        } else {
            p.push(Seq::empty())
        }
    }
}

/// The value of a string of decimal digits.
pub open spec fn digits_value(p: Seq<char>) -> nat
    decreases p.len(),
{
    if p.len() == 0 {
        0
    } else {
        digits_value(p.drop_last()) * 10 + ((p.last() as nat) - ('0' as nat)) as nat
    }
}

/// A piece parsed as a `u32`: it must be non-empty and small enough.
pub open spec fn piece_u32(p: Seq<char>) -> Option<u32> {
    if p.len() > 0 && digits_value(p) <= u32::MAX {
        Some(digits_value(p) as u32)
    } else {
        None
    }
}

/// The version named by a release string: the first two pieces are the
/// major and minor numbers and must parse; the third is the patch number
/// when present and parsable, else zero.
pub open spec fn release_version(s: Seq<char>) -> Option<KernelVersion> {
    let ps = digit_pieces(s);
    if ps.len() >= 2 && piece_u32(ps[0]) is Some && piece_u32(ps[1]) is Some {
        Some(KernelVersion {
            major: piece_u32(ps[0])->0,
            minor: piece_u32(ps[1])->0,
            patch: if ps.len() >= 3 && piece_u32(ps[2]) is Some { piece_u32(ps[2])->0 } else { 0 },
        })
    } else {
        None
    }
}

/// `major.minor.patch` in decimal.
pub open spec fn version_text(v: KernelVersion) -> Seq<char> {
    decimal(v.major as nat) + "."@ + decimal(v.minor as nat) + "."@ + decimal(v.patch as nat)
}

proof fn lemma_pieces_nonempty(s: Seq<char>)
    ensures
        digit_pieces(s).len() >= 1,
        digit_pieces(s).len() <= s.len() + 1,
        forall|j: int| 0 <= j < digit_pieces(s).len() ==> forall|k: int| 0 <= k < (#[trigger] digit_pieces(s)[j]).len() ==> is_digit(#[trigger] digit_pieces(s)[j][k]),
    decreases s.len(),
{
    if s.len() > 0 {
        lemma_pieces_nonempty(s.drop_last());
    }
}

impl KernelVersion {
    /// A version from its three numbers.
    pub fn new(major: u32, minor: u32, patch: u32) -> (r: KernelVersion)
        ensures
            r == (KernelVersion { major, minor, patch }),
    {
        KernelVersion { major, minor, patch }
    }

    /// Parses a release string such as `5.10.134-18.0.9.lifsea8.x86_64`.
    pub fn from_uname(release: &str) -> (r: Option<KernelVersion>)
        ensures
            r == release_version(release@),
    {
        let n = release.unicode_len();
        let ghost s = release@;
        // Parsed values of the first three pieces, once each piece has ended.
        let mut done: Vec<Option<u32>> = Vec::new();
        let mut cur: u32 = 0;
        let mut cur_len: usize = 0;
        let mut cur_ok: bool = true;
        let mut i: usize = 0;
        while i < n
            invariant
                n == s.len(),
                s == release@,
                i <= n,
                done@.len() <= 3,
                cur_len <= i,
                ({
                    let ps = digit_pieces(s.subrange(0, i as int));
                    &&& done@.len() == if ps.len() - 1 < 3 { ps.len() - 1 } else { 3 }
                    &&& forall|j: int| 0 <= j < done@.len() ==> done@[j] == piece_u32(#[trigger] ps[j])
                    &&& cur_len == ps.last().len()
                    &&& cur_ok == (digits_value(ps.last()) <= u32::MAX)
                    &&& cur_ok ==> cur == digits_value(ps.last())
                }),
            decreases n - i,
        {
            let c = release.get_char(i);
            let ghost pre = s.subrange(0, i as int);
            let ghost ps = digit_pieces(pre);
            assert(s.subrange(0, i + 1).drop_last() == pre);
            assert(s.subrange(0, i + 1).last() == c);
            proof { lemma_pieces_nonempty(pre); }
            if '0' <= c && c <= '9' {
                let ghost last = ps.last();
                assert(last.push(c).drop_last() == last);
                let d: u32 = (c as u32) - ('0' as u32);
                if cur_ok {
                    let wide: u64 = (cur as u64) * 10 + (d as u64);
                    if wide <= 0xffff_ffffu64 {
                        cur = wide as u32;
                    } else {
                        cur_ok = false;
                    }
                }
                cur_len = cur_len + 1;
            } else {
                if done.len() < 3 {
                    let v = if cur_len > 0 && cur_ok { Some(cur) } else { None };
                    done.push(v);
                }
                cur = 0;
                cur_len = 0;
                cur_ok = true;
            }
            i = i + 1;
        }
        assert(s.subrange(0, n as int) == s);
        let ghost ps = digit_pieces(s);
        proof { lemma_pieces_nonempty(s); }
        if done.len() < 3 {
            let v = if cur_len > 0 && cur_ok { Some(cur) } else { None };
            done.push(v);
        }
        assert(done@.len() == if ps.len() < 3 { ps.len() } else { 3 });
        if done.len() < 2 {
            return None;
        }
        let major = match done[0] { Some(v) => v, None => return None };
        let minor = match done[1] { Some(v) => v, None => return None };
        let patch = if done.len() >= 3 {
            match done[2] { Some(v) => v, None => 0 }
        } else {
            0
        };
        Some(KernelVersion::new(major, minor, patch))
    }

    /// Whether this release supports CO-RE (5.2.0 or later).
    pub fn is_core_supported(&self) -> (r: bool)
        ensures
            r == version_ge(*self, min_version()),
    {
        self.major > MIN_KERNEL_MAJOR || (self.major == MIN_KERNEL_MAJOR && (self.minor > MIN_KERNEL_MINOR
            || (self.minor == MIN_KERNEL_MINOR && self.patch >= MIN_KERNEL_PATCH)))
    }

    /// The oldest release with CO-RE support.
    pub fn min_required() -> (r: KernelVersion)
        ensures
            r == min_version(),
    {
        KernelVersion::new(MIN_KERNEL_MAJOR, MIN_KERNEL_MINOR, MIN_KERNEL_PATCH)
    }

    /// `major.minor.patch`, as the version is displayed.
    pub fn to_display_string(&self) -> (r: String)
        ensures
            r@ == version_text(*self),
    {
        let mut s = String::new();
        push_decimal(&mut s, self.major as u64);
        s.append(".");
        push_decimal(&mut s, self.minor as u64);
        s.append(".");
        push_decimal(&mut s, self.patch as u64);
        s
    }
}

/// Why CO-RE cannot be used on this machine.
#[derive(Debug)]
pub enum CoreCheckError {
    VersionDetectionFailed(String),
    KernelTooOld { current: KernelVersion, required: KernelVersion },
    BtfMissing,
}

/// The outcome of the CO-RE check, given what version detection returned
/// and whether kernel BTF is present: detection must succeed, the release
/// must be 5.2.0 or later, and BTF must be available, checked in that order.
pub open spec fn core_check_outcome(version: Result<KernelVersion, String>, btf_available: bool) -> Result<(), CoreCheckError> {
    match version {
        Err(e) => Err(CoreCheckError::VersionDetectionFailed(e)),
        Ok(v) => if !version_ge(v, min_version()) {
            Err(CoreCheckError::KernelTooOld { current: v, required: min_version() })
        } else if !btf_available {
            Err(CoreCheckError::BtfMissing)
        } else {
            Ok(())
        },
    }
}

/// Decides CO-RE support from the detected version and BTF availability.
pub fn check_core_support(version: Result<KernelVersion, String>, btf_available: bool) -> (r: Result<(), CoreCheckError>)
    ensures
        r == core_check_outcome(version, btf_available),
{
    let v = match version {
        Ok(v) => v,
        Err(e) => return Err(CoreCheckError::VersionDetectionFailed(e)),
    };
    if !v.is_core_supported() {
        return Err(CoreCheckError::KernelTooOld { current: v, required: KernelVersion::min_required() });
    }
    if !btf_available {
        return Err(CoreCheckError::BtfMissing);
    }
    Ok(())
}

/// The version named by the output of `uname -r` (already trimmed), or the
/// message reported when it names none.
pub fn version_from_release(release: &str) -> (r: Result<KernelVersion, String>)
    ensures
        match release_version(release@) {
            Some(v) => r == Ok::<KernelVersion, String>(v),
            None => r matches Err(e) && e@ == "Cannot parse kernel version from: '"@ + release@ + "'"@,
        },
{
    match KernelVersion::from_uname(release) {
        Some(v) => Ok(v),
        None => Err(concat3("Cannot parse kernel version from: '", release, "'")),
    }
}

/// The text of a CO-RE check failure.
pub open spec fn core_error_text(e: CoreCheckError) -> Seq<char> {
    match e {
        CoreCheckError::VersionDetectionFailed(m) => "Cannot detect kernel version: "@ + m@,
        CoreCheckError::KernelTooOld { current, required } =>
            "Kernel "@ + version_text(current) + " does not support CO-RE.\nMinimum required: Linux "@
                + version_text(required)
                + "\n\nCO-RE requires kernel BTF which is available from Linux 5.2+.\nUpgrade your kernel or use a distribution with BTF-enabled builds."@,
        CoreCheckError::BtfMissing =>
            "Kernel BTF not found at /sys/kernel/btf/vmlinux.\n\nYour kernel may be too old, or BTF was disabled at compile time.\nTo fix:\n- Upgrade to Linux 5.2+ with CONFIG_DEBUG_INFO_BTF=y\n- Or install BTF files via: https://github.com/aquasecurity/btfhub"@,
    }
}

impl CoreCheckError {
    /// The failure as text, as it is displayed.
    pub fn to_display_string(&self) -> (r: String)
        ensures
            r@ == core_error_text(*self),
    {
        match self {
            CoreCheckError::VersionDetectionFailed(m) => {
                let mut s = String::from_str("Cannot detect kernel version: ");
                s.append(m.as_str());
                s
            },
            CoreCheckError::KernelTooOld { current, required } => {
                let mut s = String::from_str("Kernel ");
                let c = current.to_display_string();
                s.append(c.as_str());
                s.append(" does not support CO-RE.\nMinimum required: Linux ");
                let q = required.to_display_string();
                s.append(q.as_str());
                s.append("\n\nCO-RE requires kernel BTF which is available from Linux 5.2+.\nUpgrade your kernel or use a distribution with BTF-enabled builds.");
                s
            },
            CoreCheckError::BtfMissing => String::from_str(
                "Kernel BTF not found at /sys/kernel/btf/vmlinux.\n\nYour kernel may be too old, or BTF was disabled at compile time.\nTo fix:\n- Upgrade to Linux 5.2+ with CONFIG_DEBUG_INFO_BTF=y\n- Or install BTF files via: https://github.com/aquasecurity/btfhub",
            ),
        }
    }
}

proof fn lemma_decimal_digits(n: nat)
    ensures
        decimal(n).len() > 0,
        forall|i: int| 0 <= i < decimal(n).len() ==> is_digit(#[trigger] decimal(n)[i]),
        digits_value(decimal(n)) == n,
    decreases n,
{
    if n >= 10 {
        lemma_decimal_digits(n / 10);
        let d = decimal(n / 10);
        let s = decimal(n);
        assert(s == d + seq![digit_char(n % 10)]);
        assert(s.drop_last() =~= d);
        assert forall|i: int| 0 <= i < s.len() implies is_digit(#[trigger] s[i]) by {
            if i < d.len() {
                assert(s[i] == d[i]);
            }
        }
        assert(s.last() == digit_char((n % 10) as nat));
        assert((digit_char((n % 10) as nat) as nat) - ('0' as nat) == n % 10);
        assert(digits_value(s) == digits_value(d) * 10 + n % 10);
    } else {
        assert(decimal(n).drop_last() =~= Seq::<char>::empty());
        assert(decimal(n).last() == digit_char(n));
        assert(digits_value(decimal(n)) == digits_value(Seq::<char>::empty()) * 10 + ((digit_char(n) as nat) - ('0' as nat)));
    }
}

/// Appending digits to `x` extends its last piece.
proof fn lemma_pieces_append_digits(x: Seq<char>, d: Seq<char>)
    requires
        forall|i: int| 0 <= i < d.len() ==> is_digit(#[trigger] d[i]),
    ensures
        digit_pieces(x + d) == digit_pieces(x).update(digit_pieces(x).len() - 1, digit_pieces(x).last() + d),
    decreases d.len(),
{
    lemma_pieces_nonempty(x);
    if d.len() == 0 {
        assert(x + d =~= x);
        assert(digit_pieces(x).last() + d =~= digit_pieces(x).last());
        assert(digit_pieces(x).update(digit_pieces(x).len() - 1, digit_pieces(x).last()) =~= digit_pieces(x));
    } else {
        let d0 = d.drop_last();
        assert forall|i: int| 0 <= i < d0.len() implies is_digit(#[trigger] d0[i]) by {
            assert(d0[i] == d[i]);
        }
        lemma_pieces_append_digits(x, d0);
        assert((x + d).drop_last() =~= x + d0);
        assert((x + d).last() == d.last());
        assert(is_digit(d[d.len() - 1]));
        let p = digit_pieces(x + d0);
        let big = digit_pieces(x);
        assert(p.len() == big.len());
        assert(p.last() == big.last() + d0);
        assert((big.last() + d0).push(d.last()) =~= big.last() + d);
        assert(p.update(p.len() - 1, p.last().push(d.last())) =~= digit_pieces(x).update(digit_pieces(x).len() - 1,
            digit_pieces(x).last() + d));
    }
}

/// Printing a version and parsing the text back gives the same version.
pub proof fn lemma_version_text_roundtrip(v: KernelVersion)
    ensures
        release_version(version_text(v)) == Some(v),
{
    reveal_strlit(".");
    let a = decimal(v.major as nat);
    let b = decimal(v.minor as nat);
    let c = decimal(v.patch as nat);
    lemma_decimal_digits(v.major as nat);
    lemma_decimal_digits(v.minor as nat);
    lemma_decimal_digits(v.patch as nat);
    let e = Seq::<char>::empty();
    assert(digit_pieces(e) == seq![e]);
    lemma_pieces_append_digits(e, a);
    assert(e + a =~= a);
    assert(digit_pieces(a) =~= seq![a]);
    let s1 = a + "."@;
    assert(s1.drop_last() =~= a);
    assert(digit_pieces(s1) =~= seq![a, e]);
    lemma_pieces_append_digits(s1, b);
    assert(digit_pieces(s1 + b) =~= seq![a, b]);
    let s2 = s1 + b + "."@;
    assert(s2.drop_last() =~= s1 + b);
    assert(digit_pieces(s2) =~= seq![a, b, e]);
    lemma_pieces_append_digits(s2, c);
    assert(digit_pieces(s2 + c) =~= seq![a, b, c]);
    assert(version_text(v) =~= s2 + c);
}

} // verus!
