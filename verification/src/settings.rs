use vstd::prelude::*;

use crate::time_of_day::TimeOfDay;

verus! {

/// How the settings store can fail.
#[derive(Clone, Copy, Debug, PartialEq, Eq, Structural)]
pub enum SettingsError {
    /// The settings text exists but does not parse.
    SettingsCorrupt,
}

/// Immutable configuration snapshot, loaded once at startup and read-only
/// thereafter.
#[derive(Clone, Copy, Debug, PartialEq, Eq, Structural)]
pub struct AppSettings {
    /// The daily trigger instant, kept in the text form `"HH:MM"`.
    pub trigger_time: TimeOfDay,
    /// Seconds the countdown counts down from.
    pub countdown_seconds: u32,
    /// Reserved for future interruption semantics; persisted, not consumed.
    pub allow_snooze: bool,
}

impl AppSettings {
    pub open spec fn wf(self) -> bool {
        self.trigger_time.wf()
    }

    /// The synthesized settings: 17:00, ten seconds, no snooze.
    pub open spec fn spec_default() -> AppSettings {
        AppSettings {
            trigger_time: TimeOfDay { hour: 17, minute: 0 },
            countdown_seconds: 10,
            allow_snooze: false,
        }
    }
}

impl Default for AppSettings {
    fn default() -> (r: Self)
        ensures
            r == AppSettings::spec_default(),
            r.wf(),
    {
        AppSettings {
            trigger_time: TimeOfDay { hour: 17, minute: 0 },
            countdown_seconds: 10,
            allow_snooze: false,
        }
    }
}

/// An ASCII decimal digit.
pub open spec fn is_digit(b: u8) -> bool {
    48 <= b && b <= 57
}

pub open spec fn digit_val(b: u8) -> int {
    b - 48
}

/// A two-digit zero-padded decimal rendering of `n`, for `0 <= n < 100`.
pub open spec fn two_digits(n: int) -> Seq<u8> {
    seq![(48 + n / 10) as u8, (48 + n % 10) as u8]
}

/// The `HH:MM` rendering of a time of day.
pub open spec fn hhmm_bytes(t: TimeOfDay) -> Seq<u8> {
    two_digits(t.hour as int) + seq![58u8] + two_digits(t.minute as int)
}

/// The shortest decimal rendering of `n >= 0`: no leading zero except for
/// `0` itself.
pub open spec fn dec_bytes(n: int) -> Seq<u8>
    decreases n,
{
    if n < 10 {
        seq![(48 + n) as u8]
    } else {
        dec_bytes(n / 10) + seq![(48 + n % 10) as u8]
    }
}

/// The JSON rendering of a boolean.
pub open spec fn bool_bytes(b: bool) -> Seq<u8> {
    if b {
        seq![116, 114, 117, 101]
    } else {
        seq![102, 97, 108, 115, 101]
    }
}

/// The text up to the trigger-time value.
pub open spec fn json_open() -> Seq<u8> {
    seq![
        123,
        10,
        32,
        32,
        34,
        116,
        114,
        105,
        103,
        103,
        101,
        114,
        95,
        116,
        105,
        109,
        101,
        34,
        58,
        32,
        34,
    ]
}

/// The text between the trigger-time value and the countdown value.
pub open spec fn json_mid1() -> Seq<u8> {
    seq![
        34,
        44,
        10,
        32,
        32,
        34,
        99,
        111,
        117,
        110,
        116,
        100,
        111,
        119,
        110,
        95,
        115,
        101,
        99,
        111,
        110,
        100,
        115,
        34,
        58,
        32,
    ]
}

/// The text between the countdown value and the snooze value.
pub open spec fn json_mid2() -> Seq<u8> {
    seq![
        44,
        10,
        32,
        32,
        34,
        97,
        108,
        108,
        111,
        119,
        95,
        115,
        110,
        111,
        111,
        122,
        101,
        34,
        58,
        32,
    ]
}

/// The text after the snooze value.
pub open spec fn json_close() -> Seq<u8> {
    seq![10, 125]
}

/// The pretty-printed settings document: an object with exactly the three
/// fields, two-space indentation, one field per line.
pub open spec fn pretty_json(a: AppSettings) -> Seq<u8> {
    json_open() + hhmm_bytes(a.trigger_time) + json_mid1() + dec_bytes(a.countdown_seconds as int)
        + json_mid2() + bool_bytes(a.allow_snooze) + json_close()
}

fn push_open(v: &mut Vec<u8>)
    ensures
        final(v)@ == old(v)@ + json_open(),
{
    v.push(123);
    v.push(10);
    v.push(32);
    v.push(32);
    v.push(34);
    v.push(116);
    v.push(114);
    v.push(105);
    v.push(103);
    v.push(103);
    v.push(101);
    v.push(114);
    v.push(95);
    v.push(116);
    v.push(105);
    v.push(109);
    v.push(101);
    v.push(34);
    v.push(58);
    v.push(32);
    v.push(34);
    assert(v@ =~= old(v)@ + json_open());
}

fn push_mid1(v: &mut Vec<u8>)
    ensures
        final(v)@ == old(v)@ + json_mid1(),
{
    v.push(34);
    v.push(44);
    v.push(10);
    v.push(32);
    v.push(32);
    v.push(34);
    v.push(99);
    v.push(111);
    v.push(117);
    v.push(110);
    v.push(116);
    v.push(100);
    v.push(111);
    v.push(119);
    v.push(110);
    v.push(95);
    v.push(115);
    v.push(101);
    v.push(99);
    v.push(111);
    v.push(110);
    v.push(100);
    v.push(115);
    v.push(34);
    v.push(58);
    v.push(32);
    assert(v@ =~= old(v)@ + json_mid1());
}

fn push_mid2(v: &mut Vec<u8>)
    ensures
        final(v)@ == old(v)@ + json_mid2(),
{
    v.push(44);
    v.push(10);
    v.push(32);
    v.push(32);
    v.push(34);
    v.push(97);
    v.push(108);
    v.push(108);
    v.push(111);
    v.push(119);
    v.push(95);
    v.push(115);
    v.push(110);
    v.push(111);
    v.push(111);
    v.push(122);
    v.push(101);
    v.push(34);
    v.push(58);
    v.push(32);
    assert(v@ =~= old(v)@ + json_mid2());
}

fn push_hhmm(v: &mut Vec<u8>, t: TimeOfDay)
    requires
        t.wf(),
    ensures
        final(v)@ == old(v)@ + hhmm_bytes(t),
{
    v.push(48 + t.hour / 10);
    v.push(48 + t.hour % 10);
    v.push(58);
    v.push(48 + t.minute / 10);
    v.push(48 + t.minute % 10);
    assert(v@ =~= old(v)@ + hhmm_bytes(t));
}

fn push_dec(v: &mut Vec<u8>, n: u32)
    ensures
        final(v)@ == old(v)@ + dec_bytes(n as int),
    decreases n,
{
    if n >= 10 {
        push_dec(v, n / 10);
    }
    let d: u8 = (n % 10) as u8;
    v.push(48 + d);
    assert(v@ =~= old(v)@ + dec_bytes(n as int));
}

fn push_bool(v: &mut Vec<u8>, b: bool)
    ensures
        final(v)@ == old(v)@ + bool_bytes(b),
{
    if b {
        v.push(116);
        v.push(114);
        v.push(117);
        v.push(101);
    } else {
        v.push(102);
        v.push(97);
        v.push(108);
        v.push(115);
        v.push(101);
    }
    assert(v@ =~= old(v)@ + bool_bytes(b));
}

/// Every byte in `d` is an ASCII decimal digit.
pub open spec fn all_digits(d: Seq<u8>) -> bool {
    forall|k: int| 0 <= k < d.len() ==> is_digit(d[k])
}

/// The numeric value of a sequence of ASCII decimal digits.
pub open spec fn val_of(d: Seq<u8>) -> int
    decreases d.len(),
{
    if d.len() == 0 {
        0
    } else {
        val_of(d.drop_last()) * 10 + digit_val(d.last())
    }
}

pub open spec fn pow10(k: nat) -> int
    decreases k,
{
    if k == 0 {
        1
    } else {
        10 * pow10((k - 1) as nat)
    }
}

proof fn lemma_pow10_mono(a: nat, b: nat)
    requires
        a <= b,
    ensures
        1 <= pow10(a) <= pow10(b),
    decreases b,
{
    if b == 0 {
    } else if a == b {
        lemma_pow10_mono((a - 1) as nat, (b - 1) as nat);
    } else {
        lemma_pow10_mono(a, (b - 1) as nat);
    }
}

/// The decimal rendering of `n >= 0` is a nonempty digit string without a
/// leading zero (unless it is `"0"` itself), its value is `n`, and its
/// length bounds `n` below `pow10` of it.
proof fn lemma_dec_bytes_props(n: int)
    requires
        0 <= n,
    ensures
        dec_bytes(n).len() >= 1,
        all_digits(dec_bytes(n)),
        val_of(dec_bytes(n)) == n,
        n >= 1 ==> dec_bytes(n)[0] != 48,
        n == 0 ==> dec_bytes(n) == seq![48u8],
        n < pow10(dec_bytes(n).len() as nat),
    decreases n,
{
    if n < 10 {
        let d = dec_bytes(n);
        assert(d == seq![(48 + n) as u8]);
        assert(d.drop_last() =~= Seq::<u8>::empty());
        assert(val_of(Seq::<u8>::empty()) == 0);
        assert(d.last() == (48 + n) as u8);
        assert(val_of(d) == n);
        assert(pow10(0nat) == 1);
        assert(pow10(1nat) == 10);
    } else {
        lemma_dec_bytes_props(n / 10);
        let p = dec_bytes(n / 10);
        let d = dec_bytes(n);
        assert(d == p + seq![(48 + n % 10) as u8]);
        assert(d.drop_last() =~= p);
        assert(d.last() == (48 + n % 10) as u8);
        assert(val_of(d) == val_of(p) * 10 + (n % 10));
        assert(val_of(d) == (n / 10) * 10 + (n % 10));
        assert((n / 10) * 10 + (n % 10) == n) by {
            vstd::arithmetic::div_mod::lemma_fundamental_div_mod(n, 10);
        }
        assert(d[0] == p[0]);
        assert(forall|k: int| 0 <= k < d.len() ==> is_digit(#[trigger] d[k]));
        assert(n / 10 < pow10(p.len() as nat));
        assert(pow10(d.len() as nat) == 10 * pow10(p.len() as nat));
        assert(n < 10 * pow10(p.len() as nat)) by {
            vstd::arithmetic::div_mod::lemma_fundamental_div_mod(n, 10);
        }
    }
}

/// A nonempty digit string without a leading zero is the decimal rendering
/// of its own value: decimal renderings are canonical.
proof fn lemma_digits_canonical(d: Seq<u8>)
    requires
        d.len() >= 1,
        all_digits(d),
        d.len() == 1 || d[0] != 48,
    ensures
        0 <= val_of(d) < pow10(d.len() as nat),
        dec_bytes(val_of(d)) == d,
        d[0] != 48 ==> val_of(d) >= 1,
    decreases d.len(),
{
    if d.len() == 1 {
        let v = val_of(d);
        assert(d.drop_last() =~= Seq::<u8>::empty());
        assert(val_of(Seq::<u8>::empty()) == 0);
        assert(d.last() == d[0]);
        assert(v == digit_val(d[0]));
        assert(0 <= v < 10);
        assert(pow10(0nat) == 1);
        assert(pow10(1nat) == 10);
        assert(dec_bytes(v) == seq![(48 + v) as u8]);
        assert(dec_bytes(v) =~= d);
    } else {
        let p = d.drop_last();
        assert(p[0] == d[0]);
        assert(forall|k: int| 0 <= k < p.len() ==> is_digit(#[trigger] p[k]));
        lemma_digits_canonical(p);
        let vp = val_of(p);
        let v = val_of(d);
        assert(v == vp * 10 + digit_val(d.last()));
        assert(vp >= 1);
        assert(v >= 10);
        assert(v / 10 == vp && v % 10 == digit_val(d.last())) by {
            vstd::arithmetic::div_mod::lemma_fundamental_div_mod(v, 10);
        }
        assert(dec_bytes(v) == dec_bytes(vp) + seq![(48 + v % 10) as u8]);
        assert(dec_bytes(v) =~= d);
        assert(pow10(d.len() as nat) == 10 * pow10(p.len() as nat));
    }
}

proof fn lemma_pow10_10()
    ensures
        pow10(10nat) == 10000000000,
{
    assert(pow10(0nat) == 1);
    assert(pow10(1nat) == 10);
    assert(pow10(2nat) == 100);
    assert(pow10(3nat) == 1000);
    assert(pow10(4nat) == 10000);
    assert(pow10(5nat) == 100000);
    assert(pow10(6nat) == 1000000);
    assert(pow10(7nat) == 10000000);
    assert(pow10(8nat) == 100000000);
    assert(pow10(9nat) == 1000000000);
    assert(pow10(10nat) == 10000000000);
}

/// A value below `pow10(k)` needs at most `k` decimal digits.
proof fn lemma_dec_bytes_len(n: int, k: nat)
    requires
        0 <= n,
        1 <= k,
        n < pow10(k),
    ensures
        dec_bytes(n).len() <= k,
    decreases n,
{
    if n < 10 {
    } else {
        assert(pow10(0nat) == 1);
        assert(pow10(1nat) == 10);
        if k == 1 {
            assert(false);
        }
        assert(pow10(k) == 10 * pow10((k - 1) as nat));
        assert(n / 10 < pow10((k - 1) as nat)) by {
            vstd::arithmetic::div_mod::lemma_fundamental_div_mod(n, 10);
        }
        lemma_dec_bytes_len(n / 10, (k - 1) as nat);
    }
}

/// `HH:MM` renderings are five bytes long and determine the time of day.
proof fn lemma_hhmm_inj(t1: TimeOfDay, t2: TimeOfDay)
    requires
        t1.wf(),
        t2.wf(),
        hhmm_bytes(t1) == hhmm_bytes(t2),
    ensures
        t1 == t2,
{
    let s1 = hhmm_bytes(t1);
    let s2 = hhmm_bytes(t2);
    assert(s1[0] == 48 + t1.hour / 10 && s1[1] == 48 + t1.hour % 10);
    assert(s1[3] == 48 + t1.minute / 10 && s1[4] == 48 + t1.minute % 10);
    assert(s2[0] == 48 + t2.hour / 10 && s2[1] == 48 + t2.hour % 10);
    assert(s2[3] == 48 + t2.minute / 10 && s2[4] == 48 + t2.minute % 10);
    assert(t1.hour == 10 * (t1.hour / 10) + t1.hour % 10) by {
        vstd::arithmetic::div_mod::lemma_fundamental_div_mod(t1.hour as int, 10);
    }
    assert(t2.hour == 10 * (t2.hour / 10) + t2.hour % 10) by {
        vstd::arithmetic::div_mod::lemma_fundamental_div_mod(t2.hour as int, 10);
    }
    assert(t1.minute == 10 * (t1.minute / 10) + t1.minute % 10) by {
        vstd::arithmetic::div_mod::lemma_fundamental_div_mod(t1.minute as int, 10);
    }
    assert(t2.minute == 10 * (t2.minute / 10) + t2.minute % 10) by {
        vstd::arithmetic::div_mod::lemma_fundamental_div_mod(t2.minute as int, 10);
    }
}

/// Reads two digits and recognizes `HH:MM` at position `i`, exactly when
/// those five bytes render some well-formed time of day.
fn parse_hhmm_at(s: &[u8], i: usize) -> (r: Option<TimeOfDay>)
    requires
        i + 5 <= s@.len(),
    ensures
        match r {
            Some(t) => t.wf() && s@.subrange(i as int, i + 5) == hhmm_bytes(t),
            None => forall|t: TimeOfDay| t.wf() ==> s@.subrange(i as int, i + 5) != hhmm_bytes(t),
        },
{
    let ghost sub = s@.subrange(i as int, i + 5);
    let b0 = s[i];
    let b1 = s[i + 1];
    let b2 = s[i + 2];
    let b3 = s[i + 3];
    let b4 = s[i + 4];
    assert(sub[0] == b0 && sub[1] == b1 && sub[2] == b2 && sub[3] == b3 && sub[4] == b4);
    let digits_ok = 48 <= b0 && b0 <= 57 && 48 <= b1 && b1 <= 57 && 48 <= b3 && b3 <= 57 && 48
        <= b4 && b4 <= 57;
    if digits_ok && b2 == 58 {
        let h = (b0 - 48) * 10 + (b1 - 48);
        let m = (b3 - 48) * 10 + (b4 - 48);
        if h < 24 && m < 60 {
            let t = TimeOfDay { hour: h, minute: m };
            proof {
                assert(h / 10 == b0 - 48 && h % 10 == b1 - 48);
                assert(m / 10 == b3 - 48 && m % 10 == b4 - 48);
                assert(sub =~= hhmm_bytes(t));
            }
            return Some(t);
        }
    }
    proof {
        assert forall|t: TimeOfDay| t.wf() implies sub != hhmm_bytes(t) by {
            if sub == hhmm_bytes(t) {
                assert(hhmm_bytes(t)[0] == 48 + t.hour / 10);
                assert(hhmm_bytes(t)[1] == 48 + t.hour % 10);
                assert(hhmm_bytes(t)[2] == 58);
                assert(hhmm_bytes(t)[3] == 48 + t.minute / 10);
                assert(hhmm_bytes(t)[4] == 48 + t.minute % 10);
                assert(t.hour == 10 * (t.hour / 10) + t.hour % 10) by {
                    vstd::arithmetic::div_mod::lemma_fundamental_div_mod(t.hour as int, 10);
                }
                assert(t.minute == 10 * (t.minute / 10) + t.minute % 10) by {
                    vstd::arithmetic::div_mod::lemma_fundamental_div_mod(t.minute as int, 10);
                }
                assert(48 <= b0 <= 57 && 48 <= b1 <= 57 && b2 == 58 && 48 <= b3 <= 57 && 48 <= b4
                    <= 57);
                assert((b0 - 48) * 10 + (b1 - 48) == t.hour);
                assert((b3 - 48) * 10 + (b4 - 48) == t.minute);
                assert(false);
            }
        }
    }
    None
}

/// What parsing `HH:MM` means: the unique well-formed time of day whose
/// rendering is the whole input, if one exists.
pub open spec fn spec_parse_hhmm(s: Seq<u8>) -> Option<TimeOfDay> {
    if exists|t: TimeOfDay| t.wf() && s == hhmm_bytes(t) {
        Some(choose|t: TimeOfDay| t.wf() && s == hhmm_bytes(t))
    } else {
        None
    }
}

/// Parses zero-padded 24-hour `HH:MM`, the exact form `serialize_trigger_time`
/// writes; anything else yields `None`.
pub fn deserialize_trigger_time(s: &[u8]) -> (r: Option<TimeOfDay>)
    ensures
        r == spec_parse_hhmm(s@),
        match r {
            Some(t) => t.wf() && s@ == hhmm_bytes(t),
            None => forall|t: TimeOfDay| t.wf() ==> s@ != hhmm_bytes(t),
        },
{
    if s.len() != 5 {
        proof {
            assert forall|t: TimeOfDay| t.wf() implies s@ != hhmm_bytes(t) by {
                assert(hhmm_bytes(t).len() == 5);
            }
        }
        return None;
    }
    let r = parse_hhmm_at(s, 0);
    proof {
        assert(s@.subrange(0, 5) =~= s@);
    }
    match r {
        Some(t) => {
            proof {
                assert(t.wf() && s@ == hhmm_bytes(t));
                let w = choose|x: TimeOfDay| x.wf() && s@ == hhmm_bytes(x);
                lemma_hhmm_inj(t, w);
            }
            Some(t)
        },
        None => None,
    }
}

/// Round trip for the trigger time: formatting then parsing reproduces the
/// identical hour/minute pair.
pub proof fn lemma_trigger_time_round_trip(t: TimeOfDay)
    requires
        t.wf(),
    ensures
        spec_parse_hhmm(hhmm_bytes(t)) == Some(t),
{
    let s = hhmm_bytes(t);
    assert(exists|x: TimeOfDay| x.wf() && s == hhmm_bytes(x)) by {
        assert(t.wf() && s == hhmm_bytes(t));
    }
    let w = choose|x: TimeOfDay| x.wf() && s == hhmm_bytes(x);
    lemma_hhmm_inj(t, w);
}

/// Formats a time of day as zero-padded 24-hour `HH:MM`, no seconds.
pub fn serialize_trigger_time(t: TimeOfDay) -> (r: Vec<u8>)
    requires
        t.wf(),
    ensures
        r@ == hhmm_bytes(t),
{
    let mut v: Vec<u8> = Vec::new();
    push_hhmm(&mut v, t);
    v
}

fn open_vec() -> (r: Vec<u8>)
    ensures
        r@ == json_open(),
{
    let mut v: Vec<u8> = Vec::new();
    push_open(&mut v);
    assert(v@ =~= json_open());
    v
}

fn mid1_vec() -> (r: Vec<u8>)
    ensures
        r@ == json_mid1(),
{
    let mut v: Vec<u8> = Vec::new();
    push_mid1(&mut v);
    assert(v@ =~= json_mid1());
    v
}

fn mid2_vec() -> (r: Vec<u8>)
    ensures
        r@ == json_mid2(),
{
    let mut v: Vec<u8> = Vec::new();
    push_mid2(&mut v);
    assert(v@ =~= json_mid2());
    v
}

fn bool_vec(b: bool) -> (r: Vec<u8>)
    ensures
        r@ == bool_bytes(b),
{
    let mut v: Vec<u8> = Vec::new();
    push_bool(&mut v, b);
    assert(v@ =~= bool_bytes(b));
    v
}

fn close_vec() -> (r: Vec<u8>)
    ensures
        r@ == json_close(),
{
    let mut v: Vec<u8> = Vec::new();
    v.push(10);
    v.push(125);
    assert(v@ =~= json_close());
    v
}

/// Whether `pat` occurs in `s` starting at position `i`.
fn match_at(s: &[u8], i: usize, pat: &Vec<u8>) -> (r: bool)
    requires
        i <= s@.len(),
    ensures
        r == (i + pat@.len() <= s@.len() && s@.subrange(i as int, i + pat@.len()) == pat@),
{
    if s.len() - i < pat.len() {
        return false;
    }
    let mut j: usize = 0;
    while j < pat.len()
        invariant
            0 <= j <= pat@.len(),
            i + pat@.len() <= s@.len(),
            s@.len() <= usize::MAX,
            forall|k: int| 0 <= k < j ==> s@[i + k] == pat@[k],
        decreases pat@.len() - j,
    {
        if s[i + j] != pat[j] {
            proof {
                assert(s@.subrange(i as int, i + pat@.len())[j as int] == s@[i + j]);
            }
            return false;
        }
        j += 1;
    }
    proof {
        assert(s@.subrange(i as int, i + pat@.len()) =~= pat@);
    }
    true
}

/// The position of the first byte at or after `i` that is not a decimal
/// digit.
fn scan_digits(s: &[u8], i: usize) -> (j: usize)
    requires
        i <= s@.len(),
    ensures
        i <= j <= s@.len(),
        forall|k: int| i <= k < j ==> is_digit(s@[k]),
        j < s@.len() ==> !is_digit(s@[j as int]),
{
    let mut j: usize = i;
    while j < s.len()
        invariant
            i <= j <= s@.len(),
            forall|k: int| i <= k < j ==> is_digit(s@[k]),
        decreases s@.len() - j,
    {
        let b = s[j];
        if b < 48 || b > 57 {
            return j;
        }
        j += 1;
    }
    j
}

/// The numeric value of the digit run `s[i..j]`.
fn value_of_digits(s: &[u8], i: usize, j: usize) -> (n: u64)
    requires
        i <= j <= s@.len(),
        j - i <= 10,
        forall|k: int| i <= k < j ==> is_digit(s@[k]),
    ensures
        n == val_of(s@.subrange(i as int, j as int)),
        n < pow10((j - i) as nat),
{
    let mut n: u64 = 0;
    let mut k: usize = i;
    proof {
        assert(s@.subrange(i as int, i as int) =~= Seq::<u8>::empty());
        assert(val_of(Seq::<u8>::empty()) == 0);
        assert(pow10(0nat) == 1);
    }
    while k < j
        invariant
            i <= k <= j <= s@.len(),
            j - i <= 10,
            forall|q: int| i <= q < j ==> is_digit(s@[q]),
            n == val_of(s@.subrange(i as int, k as int)),
            n < pow10((k - i) as nat),
        decreases j - k,
    {
        proof {
            lemma_pow10_mono((k - i) as nat, 10nat);
            lemma_pow10_10();
            let sub1 = s@.subrange(i as int, k + 1);
            assert(sub1.drop_last() =~= s@.subrange(i as int, k as int));
            assert(sub1.last() == s@[k as int]);
        }
        let b = s[k];
        n = n * 10 + ((b - 48) as u64);
        k += 1;
        proof {
            assert(pow10((k - i) as nat) == 10 * pow10((k - i - 1) as nat));
        }
    }
    n
}

/// Where each piece of the pretty-printed document lies: the fixed text
/// runs, the `HH:MM` value at 21, the decimal value at 52, the boolean after
/// it, and the closing brace at the very end.
proof fn lemma_pretty_structure(a: AppSettings)
    requires
        a.wf(),
    ensures
        ({
            let s = pretty_json(a);
            let dl = dec_bytes(a.countdown_seconds as int).len() as int;
            let bl = bool_bytes(a.allow_snooze).len() as int;
            &&& s.len() == 74 + dl + bl
            &&& 1 <= dl <= 10
            &&& (bl == 4 || bl == 5)
            &&& s.subrange(0, 21) == json_open()
            &&& s.subrange(21, 26) == hhmm_bytes(a.trigger_time)
            &&& s.subrange(26, 52) == json_mid1()
            &&& s.subrange(52, 52 + dl) == dec_bytes(a.countdown_seconds as int)
            &&& s.subrange(52 + dl, 72 + dl) == json_mid2()
            &&& s.subrange(72 + dl, 72 + dl + bl) == bool_bytes(a.allow_snooze)
            &&& s.subrange(72 + dl + bl, 74 + dl + bl) == json_close()
            &&& all_digits(dec_bytes(a.countdown_seconds as int))
            &&& s[52 + dl] == 44
        }),
{
    let o = json_open();
    let h = hhmm_bytes(a.trigger_time);
    let m1 = json_mid1();
    let d = dec_bytes(a.countdown_seconds as int);
    let m2 = json_mid2();
    let b = bool_bytes(a.allow_snooze);
    let c = json_close();
    let s = pretty_json(a);
    lemma_dec_bytes_props(a.countdown_seconds as int);
    lemma_pow10_10();
    lemma_dec_bytes_len(a.countdown_seconds as int, 10nat);
    let dl = d.len() as int;
    let bl = b.len() as int;
    assert(s =~= o + h + m1 + d + m2 + b + c);
    assert(s.len() == 74 + dl + bl);
    assert(s.subrange(0, 21) =~= o);
    assert(s.subrange(21, 26) =~= h);
    assert(s.subrange(26, 52) =~= m1);
    assert(s.subrange(52, 52 + dl) =~= d);
    assert(s.subrange(52 + dl, 72 + dl) =~= m2);
    assert(s.subrange(72 + dl, 72 + dl + bl) =~= b);
    assert(s.subrange(72 + dl + bl, 74 + dl + bl) =~= c);
    assert(s[52 + dl] == m2[0]);
}

impl AppSettings {
    /// The pretty-printed settings document for this value, the exact text
    /// the settings store persists.
    pub fn to_json_pretty(&self) -> (r: Vec<u8>)
        requires
            self.wf(),
        ensures
            r@ == pretty_json(*self),
    {
        let mut v: Vec<u8> = Vec::new();
        push_open(&mut v);
        push_hhmm(&mut v, self.trigger_time);
        push_mid1(&mut v);
        push_dec(&mut v, self.countdown_seconds);
        push_mid2(&mut v);
        push_bool(&mut v, self.allow_snooze);
        v.push(10);
        v.push(125);
        assert(v@ =~= pretty_json(*self));
        v
    }
}

/// Equal pretty-printed documents come from equal settings values.
proof fn lemma_pretty_inj(a1: AppSettings, a2: AppSettings)
    requires
        a1.wf(),
        a2.wf(),
        pretty_json(a1) == pretty_json(a2),
    ensures
        a1 == a2,
{
    let s = pretty_json(a1);
    lemma_pretty_structure(a1);
    lemma_pretty_structure(a2);
    lemma_dec_bytes_props(a1.countdown_seconds as int);
    lemma_dec_bytes_props(a2.countdown_seconds as int);
    let d1 = dec_bytes(a1.countdown_seconds as int);
    let d2 = dec_bytes(a2.countdown_seconds as int);
    let dl1 = d1.len() as int;
    let dl2 = d2.len() as int;
    if dl1 < dl2 {
        assert(s[52 + dl1] == s.subrange(52, 52 + dl2)[dl1]);
        assert(is_digit(d2[dl1]));
        assert(false);
    }
    if dl2 < dl1 {
        assert(s[52 + dl2] == s.subrange(52, 52 + dl1)[dl2]);
        assert(is_digit(d1[dl2]));
        assert(false);
    }
    assert(d1 == d2);
    assert(a1.countdown_seconds == a2.countdown_seconds);
    lemma_hhmm_inj(a1.trigger_time, a2.trigger_time);
    let dl = dl1;
    let bl = bool_bytes(a1.allow_snooze).len() as int;
    assert(s[72 + dl] == s.subrange(72 + dl, 72 + dl + bl)[0]);
    assert(s[72 + dl] == bool_bytes(a1.allow_snooze)[0]);
    assert(s[72 + dl] == bool_bytes(a2.allow_snooze)[0]);
    assert(a1.allow_snooze == a2.allow_snooze);
}

/// What parsing the settings document means: the unique well-formed value
/// whose pretty-printed rendering is the whole input, if one exists.
pub open spec fn spec_from_json(s: Seq<u8>) -> Result<AppSettings, SettingsError> {
    if exists|a: AppSettings| a.wf() && s == pretty_json(a) {
        Ok(choose|a: AppSettings| a.wf() && s == pretty_json(a))
    } else {
        Err(SettingsError::SettingsCorrupt)
    }
}

/// In the pretty document of `a`, a maximal digit run starting at 52 ends
/// exactly where the countdown value's rendering ends.
proof fn lemma_digit_run_end(s: Seq<u8>, a: AppSettings, j: int)
    requires
        a.wf(),
        s == pretty_json(a),
        52 <= j <= s.len(),
        forall|k: int| 52 <= k < j ==> is_digit(s[k]),
        j < s.len() ==> !is_digit(s[j]),
    ensures
        j == 52 + dec_bytes(a.countdown_seconds as int).len(),
{
    lemma_pretty_structure(a);
    let d = dec_bytes(a.countdown_seconds as int);
    let dl = d.len() as int;
    if j < 52 + dl {
        assert(s[j] == s.subrange(52, 52 + dl)[j - 52]);
        assert(is_digit(d[j - 52]));
        assert(false);
    }
    if j > 52 + dl {
        assert(is_digit(s[52 + dl]));
        assert(false);
    }
}

/// A text whose pieces are the pieces of the pretty document of `a`, in
/// order and with nothing left over, is that document.
proof fn lemma_assemble(s: Seq<u8>, a: AppSettings, j: int, jj: int, end: int)
    requires
        a.wf(),
        j == 52 + dec_bytes(a.countdown_seconds as int).len(),
        jj == j + 20,
        end == jj + bool_bytes(a.allow_snooze).len(),
        s.len() == end + 2,
        s.subrange(0, 21) == json_open(),
        s.subrange(21, 26) == hhmm_bytes(a.trigger_time),
        s.subrange(26, 52) == json_mid1(),
        s.subrange(52, j) == dec_bytes(a.countdown_seconds as int),
        s.subrange(j, jj) == json_mid2(),
        s.subrange(jj, end) == bool_bytes(a.allow_snooze),
        s.subrange(end, end + 2) == json_close(),
    ensures
        s == pretty_json(a),
{
    lemma_pretty_structure(a);
    let dl = dec_bytes(a.countdown_seconds as int).len() as int;
    let bl = bool_bytes(a.allow_snooze).len() as int;
    assert forall|i: int| 0 <= i < s.len() implies s[i] == pretty_json(a)[i] by {
        let p = pretty_json(a);
        if i < 21 {
            assert(s[i] == s.subrange(0, 21)[i]);
            assert(p[i] == p.subrange(0, 21)[i]);
        } else if i < 26 {
            assert(s[i] == s.subrange(21, 26)[i - 21]);
            assert(p[i] == p.subrange(21, 26)[i - 21]);
        } else if i < 52 {
            assert(s[i] == s.subrange(26, 52)[i - 26]);
            assert(p[i] == p.subrange(26, 52)[i - 26]);
        } else if i < 52 + dl {
            assert(s[i] == s.subrange(52, 52 + dl)[i - 52]);
            assert(p[i] == p.subrange(52, 52 + dl)[i - 52]);
        } else if i < 72 + dl {
            assert(s[i] == s.subrange(52 + dl, 72 + dl)[i - 52 - dl]);
            assert(p[i] == p.subrange(52 + dl, 72 + dl)[i - 52 - dl]);
        } else if i < 72 + dl + bl {
            assert(s[i] == s.subrange(72 + dl, 72 + dl + bl)[i - 72 - dl]);
            assert(p[i] == p.subrange(72 + dl, 72 + dl + bl)[i - 72 - dl]);
        } else {
            assert(s[i] == s.subrange(72 + dl + bl, 74 + dl + bl)[i - 72 - dl - bl]);
            assert(p[i] == p.subrange(72 + dl + bl, 74 + dl + bl)[i - 72 - dl - bl]);
        }
    }
    assert(s =~= pretty_json(a));
}

impl AppSettings {
    /// Parses the pretty-printed settings document: succeeds exactly on the
    /// text `to_json_pretty` writes for some well-formed value, and yields
    /// that value; everything else is `SettingsCorrupt`.
    ///
    /// The document's shape is canonical. A file edited by hand must keep
    /// the written layout — field order, spacing and line breaks — and
    /// change only the three values; any other rendering, including extra
    /// whitespace or reordered fields, is rejected.
    #[verifier::rlimit(100)]
    pub fn from_json(s: &[u8]) -> (r: Result<AppSettings, SettingsError>)
        ensures
            r == spec_from_json(s@),
            match r {
                Ok(a) => a.wf() && s@ == pretty_json(a),
                Err(e) => e == SettingsError::SettingsCorrupt && forall|a: AppSettings|
                    a.wf() ==> s@ != pretty_json(a),
            },
    {
        let open_pat = open_vec();
        if !match_at(s, 0, &open_pat) {
            proof {
                assert forall|a: AppSettings| a.wf() implies s@ != pretty_json(a) by {
                    if s@ == pretty_json(a) {
                        lemma_pretty_structure(a);
                        assert(s@.subrange(0, 21) == json_open());
                    }
                }
            }
            return Err(SettingsError::SettingsCorrupt);
        }
        if s.len() < 26 {
            proof {
                assert forall|a: AppSettings| a.wf() implies s@ != pretty_json(a) by {
                    if s@ == pretty_json(a) {
                        lemma_pretty_structure(a);
                    }
                }
            }
            return Err(SettingsError::SettingsCorrupt);
        }
        let t_opt = parse_hhmm_at(s, 21);
        let t = match t_opt {
            Some(t) => t,
            None => {
                proof {
                    assert forall|a: AppSettings| a.wf() implies s@ != pretty_json(a) by {
                        if s@ == pretty_json(a) {
                            lemma_pretty_structure(a);
                            assert(s@.subrange(21, 26) == hhmm_bytes(a.trigger_time));
                        }
                    }
                }
                return Err(SettingsError::SettingsCorrupt);
            },
        };
        let mid1_pat = mid1_vec();
        if !match_at(s, 26, &mid1_pat) {
            proof {
                assert forall|a: AppSettings| a.wf() implies s@ != pretty_json(a) by {
                    if s@ == pretty_json(a) {
                        lemma_pretty_structure(a);
                        assert(s@.subrange(26, 52) == json_mid1());
                    }
                }
            }
            return Err(SettingsError::SettingsCorrupt);
        }
        let j = scan_digits(s, 52);
        if j == 52 {
            proof {
                assert forall|a: AppSettings| a.wf() implies s@ != pretty_json(a) by {
                    if s@ == pretty_json(a) {
                        lemma_pretty_structure(a);
                        let d = dec_bytes(a.countdown_seconds as int);
                        assert(s@[52] == s@.subrange(52, 52 + d.len() as int)[0]);
                        assert(is_digit(d[0]));
                        assert(false);
                    }
                }
            }
            return Err(SettingsError::SettingsCorrupt);
        }
        if j - 52 > 10 {
            proof {
                assert forall|a: AppSettings| a.wf() implies s@ != pretty_json(a) by {
                    if s@ == pretty_json(a) {
                        lemma_digit_run_end(s@, a, j as int);
                        lemma_pretty_structure(a);
                        assert(false);
                    }
                }
            }
            return Err(SettingsError::SettingsCorrupt);
        }
        let first_digit = s[52];
        if first_digit == 48 && j > 53 {
            proof {
                assert forall|a: AppSettings| a.wf() implies s@ != pretty_json(a) by {
                    if s@ == pretty_json(a) {
                        lemma_digit_run_end(s@, a, j as int);
                        lemma_pretty_structure(a);
                        lemma_dec_bytes_props(a.countdown_seconds as int);
                        let d = dec_bytes(a.countdown_seconds as int);
                        assert(d.len() >= 2);
                        assert(a.countdown_seconds >= 1);
                        assert(s@[52] == s@.subrange(52, 52 + d.len() as int)[0]);
                        assert(d[0] != 48);
                        assert(false);
                    }
                }
            }
            return Err(SettingsError::SettingsCorrupt);
        }
        let n64 = value_of_digits(s, 52, j);
        if n64 > 4294967295u64 {
            proof {
                assert forall|a: AppSettings| a.wf() implies s@ != pretty_json(a) by {
                    if s@ == pretty_json(a) {
                        lemma_digit_run_end(s@, a, j as int);
                        lemma_pretty_structure(a);
                        lemma_dec_bytes_props(a.countdown_seconds as int);
                        let d = dec_bytes(a.countdown_seconds as int);
                        assert(s@.subrange(52, j as int) == d);
                        assert(n64 == a.countdown_seconds);
                        assert(false);
                    }
                }
            }
            return Err(SettingsError::SettingsCorrupt);
        }
        let n = n64 as u32;
        let mid2_pat = mid2_vec();
        if !match_at(s, j, &mid2_pat) {
            proof {
                assert forall|a: AppSettings| a.wf() implies s@ != pretty_json(a) by {
                    if s@ == pretty_json(a) {
                        lemma_digit_run_end(s@, a, j as int);
                        lemma_pretty_structure(a);
                        let dl = dec_bytes(a.countdown_seconds as int).len() as int;
                        assert(s@.subrange(52 + dl, 72 + dl) == json_mid2());
                        assert(false);
                    }
                }
            }
            return Err(SettingsError::SettingsCorrupt);
        }
        let jj = j + 20;
        let true_pat = bool_vec(true);
        let false_pat = bool_vec(false);
        let is_t = match_at(s, jj, &true_pat);
        let is_f = match_at(s, jj, &false_pat);
        if !is_t && !is_f {
            proof {
                assert forall|a: AppSettings| a.wf() implies s@ != pretty_json(a) by {
                    if s@ == pretty_json(a) {
                        lemma_digit_run_end(s@, a, j as int);
                        lemma_pretty_structure(a);
                        let dl = dec_bytes(a.countdown_seconds as int).len() as int;
                        let bl = bool_bytes(a.allow_snooze).len() as int;
                        assert(s@.subrange(72 + dl, 72 + dl + bl) == bool_bytes(a.allow_snooze));
                        assert(false);
                    }
                }
            }
            return Err(SettingsError::SettingsCorrupt);
        }
        let b = is_t;
        let end = if is_t {
            jj + 4
        } else {
            jj + 5
        };
        proof {
            if is_t && is_f {
                assert(s@.subrange(jj as int, jj + 4)[0] == s@[jj as int]);
                assert(s@.subrange(jj as int, jj + 5)[0] == s@[jj as int]);
                assert(false);
            }
        }
        let close_pat = close_vec();
        if !match_at(s, end, &close_pat) {
            proof {
                assert forall|a: AppSettings| a.wf() implies s@ != pretty_json(a) by {
                    if s@ == pretty_json(a) {
                        lemma_digit_run_end(s@, a, j as int);
                        lemma_pretty_structure(a);
                        let dl = dec_bytes(a.countdown_seconds as int).len() as int;
                        let bl = bool_bytes(a.allow_snooze).len() as int;
                        assert(s@.subrange(72 + dl, 72 + dl + bl) == bool_bytes(a.allow_snooze));
                        assert(s@[72 + dl] == bool_bytes(a.allow_snooze)[0]);
                        assert(s@.subrange(jj as int, jj + (if is_t { 4int } else { 5int }))[0]
                            == s@[jj as int]);
                        assert(a.allow_snooze == is_t);
                        assert(end == 72 + dl + bl);
                        assert(s@.subrange(72 + dl + bl, 74 + dl + bl) == json_close());
                        assert(false);
                    }
                }
            }
            return Err(SettingsError::SettingsCorrupt);
        }
        if end + 2 != s.len() {
            proof {
                assert forall|a: AppSettings| a.wf() implies s@ != pretty_json(a) by {
                    if s@ == pretty_json(a) {
                        lemma_digit_run_end(s@, a, j as int);
                        lemma_pretty_structure(a);
                        let dl = dec_bytes(a.countdown_seconds as int).len() as int;
                        let bl = bool_bytes(a.allow_snooze).len() as int;
                        assert(s@[72 + dl] == bool_bytes(a.allow_snooze)[0]);
                        assert(s@.subrange(jj as int, jj + (if is_t { 4int } else { 5int }))[0]
                            == s@[jj as int]);
                        assert(a.allow_snooze == is_t);
                        assert(s@.len() == 74 + dl + bl);
                        assert(false);
                    }
                }
            }
            return Err(SettingsError::SettingsCorrupt);
        }
        let a = AppSettings { trigger_time: t, countdown_seconds: n, allow_snooze: b };
        proof {
            let run = s@.subrange(52, j as int);
            assert(forall|k: int| 0 <= k < run.len() ==> is_digit(#[trigger] run[k]));
            assert(run.len() == 1 || run[0] != 48);
            lemma_digits_canonical(run);
            assert(n64 == val_of(run));
            assert(dec_bytes(n as int) == run);
            assert(s@.subrange(jj as int, end as int) == bool_bytes(b));
            lemma_assemble(s@, a, j as int, jj as int, end as int);
            assert(exists|x: AppSettings| x.wf() && s@ == pretty_json(x)) by {
                assert(a.wf() && s@ == pretty_json(a));
            }
            let w = choose|x: AppSettings| x.wf() && s@ == pretty_json(x);
            lemma_pretty_inj(a, w);
        }
        Ok(a)
    }
}

/// What the settings store computes from the settings file's contents
/// (`None` stands for a missing or unreadable file): the settings to use
/// and, when defaults were synthesized, the exact text to persist.
pub open spec fn spec_load_or_create(content: Option<Seq<u8>>) -> Result<
    (AppSettings, Option<Seq<u8>>),
    SettingsError,
> {
    match content {
        None => Ok(
            (AppSettings::spec_default(), Some(pretty_json(AppSettings::spec_default()))),
        ),
        Some(c) => match spec_from_json(c) {
            Ok(a) => Ok((a, None)),
            Err(e) => Err(e),
        },
    }
}

impl AppSettings {
    /// Load-or-create over the contents of the settings file: on a missing
    /// or unreadable file (`None`) it synthesizes the defaults and returns
    /// the pretty-printed text to persist; on existing contents it parses
    /// them, surfacing `SettingsCorrupt` instead of crashing.
    ///
    /// The store reads only the canonical shape it writes (see
    /// `from_json`): edits to the file must preserve that layout.
    pub fn load_or_create_settings(content: Option<&Vec<u8>>) -> (r: Result<
        (AppSettings, Option<Vec<u8>>),
        SettingsError,
    >)
        ensures
            content is None ==> (r matches Ok(p) && (p.0 == AppSettings::spec_default() && (
            p.1 matches Some(w) && w@ == pretty_json(AppSettings::spec_default())))),
            content matches Some(c) ==> (match r {
                Ok(p) => p.0.wf() && c@ == pretty_json(p.0) && p.1 is None && spec_from_json(c@)
                    == Ok::<AppSettings, SettingsError>(p.0),
                Err(e) => e == SettingsError::SettingsCorrupt && (forall|a: AppSettings|
                    a.wf() ==> c@ != pretty_json(a)),
            }),
    {
        match content {
            None => {
                let d = AppSettings::default();
                let out = d.to_json_pretty();
                Ok((d, Some(out)))
            },
            Some(c) => match AppSettings::from_json(c.as_slice()) {
                Ok(a) => Ok((a, None)),
                Err(e) => Err(e),
            },
        }
    }
}

/// Round trip: parsing the pretty-printed document of any well-formed
/// settings value yields that very value.
pub proof fn lemma_settings_round_trip(a: AppSettings)
    requires
        a.wf(),
    ensures
        spec_from_json(pretty_json(a)) == Ok::<AppSettings, SettingsError>(a),
{
    let s = pretty_json(a);
    assert(exists|x: AppSettings| x.wf() && s == pretty_json(x)) by {
        assert(a.wf() && s == pretty_json(a));
    }
    let w = choose|x: AppSettings| x.wf() && s == pretty_json(x);
    lemma_pretty_inj(a, w);
}

/// Settings store idempotence: a first load over a store that began empty
/// returns the defaults and the text to persist; a second load over that
/// very text returns the same settings and persists nothing further.
pub proof fn lemma_load_or_create_idempotent()
    ensures
        spec_load_or_create(None) == Ok::<(AppSettings, Option<Seq<u8>>), SettingsError>(
            (AppSettings::spec_default(), Some(pretty_json(AppSettings::spec_default()))),
        ),
        spec_load_or_create(Some(pretty_json(AppSettings::spec_default()))) == Ok::<
            (AppSettings, Option<Seq<u8>>),
            SettingsError,
        >((AppSettings::spec_default(), None)),
{
    assert(AppSettings::spec_default().wf());
    lemma_settings_round_trip(AppSettings::spec_default());
}

} // verus!
