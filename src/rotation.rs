//! Cookie master-key rotation: a window of HMAC-wrapped keys, one per epoch,
//! refreshed from a shared cache.

use std::collections::HashMap;
use vstd::prelude::*;
use vstd::string::StringExecFns;

verus! {

broadcast use vstd::std_specs::hash::group_hash_axioms;

/// A 4-byte key identifier: the low 32 bits of an epoch, big-endian.
pub type KeyID = [u8; 4];

/// HMAC inputs at or beyond this length are refused by the digest.
pub const HMAC_INPUT_LIMIT: u64 = 0x1000_0000_0000_0000;

/// Why a rotation did not fully succeed.
#[derive(Clone, Copy, Debug, PartialEq, Eq, Structural)]
pub enum RotationError {
    /// One or more window slots were absent from the cache.
    CacheMissFailure,
    /// The cache itself could not be queried.
    CacheTransportFailure,
    /// The current time lies before the Unix epoch.
    ClockFailure,
}

/// A failed cache query.
#[derive(Clone, Copy, Debug, PartialEq, Eq, Structural)]
pub struct CacheError;

/// A store of raw keys by name.
pub trait VecMap {
    fn get(&mut self, key: &str) -> Result<Option<Vec<u8>>, CacheError>;
}

/// The set of wrapped cookie keys kept by a server.
pub struct RotatingKeys {
    pub memcache_url: String,
    pub prefix: String,
    pub duration: i64,
    pub forward_periods: i64,
    pub backward_periods: i64,
    pub master_key: Vec<u8>,
    pub latest: KeyID,
    /// Wrapped keys, by the big-endian value of their KeyID.
    pub keys: HashMap<u32, Vec<u8>>,
}

// ---------------------------------------------------------------------------
// Key identifiers

pub open spec fn low32(n: int) -> int {
    n % 0x1_0000_0000
}

/// The KeyID of an epoch.
pub open spec fn key_id_bytes(n: int) -> Seq<u8> {
    let x = low32(n);
    let q1 = x / 256;
    let q2 = q1 / 256;
    let q3 = q2 / 256;
    seq![q3 as u8, (q2 % 256) as u8, (q1 % 256) as u8, (x % 256) as u8]
}

/// Big-endian value of four bytes.
pub open spec fn be32(b: Seq<u8>) -> int {
    b[0] as int * 0x100_0000 + b[1] as int * 0x1_0000 + b[2] as int * 0x100 + b[3] as int
}

/// The map key under which the entry of an epoch is kept.
pub open spec fn slot_key(n: int) -> u32 {
    low32(n) as u32
}

/// A KeyID reads back, big-endian, as the low 32 bits of its epoch.
pub proof fn lemma_key_id_value(n: int)
    ensures
        be32(key_id_bytes(n)) == low32(n),
        0 <= low32(n) < 0x1_0000_0000,
{
    let x = low32(n);
    let q1 = x / 256;
    let q2 = q1 / 256;
    let q3 = q2 / 256;
    assert(x == 256 * q1 + x % 256);
    assert(q1 == 256 * q2 + q1 % 256);
    assert(q2 == 256 * q3 + q2 % 256);
    assert(q3 < 256);
}

/// Writes the low 32 bits of `n` as four big-endian bytes.
pub fn be_bytes(n: i64) -> (r: KeyID)
    ensures
        r@ == key_id_bytes(n as int),
{
    let x: i64 = match n.checked_rem_euclid(0x1_0000_0000i64) {
        Some(x) => x,
        None => 0,
    };
    assert(x == low32(n as int));
    let q1 = x / 256;
    let q2 = q1 / 256;
    let q3 = q2 / 256;
    let r: KeyID = [q3 as u8, (q2 % 256) as u8, (q1 % 256) as u8, (x % 256) as u8];
    assert(r@ =~= key_id_bytes(n as int));
    r
}

/// The map key of a KeyID.
pub fn key_id_value(id: &KeyID) -> (k: u32)
    ensures
        k == be32(id@),
{
    id[0] as u32 * 0x100_0000 + id[1] as u32 * 0x1_0000 + id[2] as u32 * 0x100 + id[3] as u32
}

/// The map key of an epoch.
fn epoch_key(n: i64) -> (k: u32)
    ensures
        k == slot_key(n as int),
{
    let x: i64 = match n.checked_rem_euclid(0x1_0000_0000i64) {
        Some(x) => x,
        None => 0,
    };
    x as u32
}

// ---------------------------------------------------------------------------
// Wrapping

/// Names the HMAC-SHA256 tag of a message under a key.
pub uninterp spec fn hmac_sha256(key: Seq<u8>, msg: Seq<u8>) -> Seq<u8>;

/// Relies on ring's `hmac::sign` with `HMAC_SHA256`: the tag depends on the key
/// and the message alone and is 32 bytes long. Inputs past the digest's length
/// limit are left out, as ring panics on them.
#[verifier::external_body]
fn hmac_sha256_sign(key: &[u8], msg: &[u8]) -> (tag: Vec<u8>)
    requires
        key@.len() < HMAC_INPUT_LIMIT,
        msg@.len() < HMAC_INPUT_LIMIT,
    ensures
        tag@ == hmac_sha256(key@, msg@),
        tag@.len() == 32,
{
    let k = ring::hmac::Key::new(ring::hmac::HMAC_SHA256, key);
    ring::hmac::sign(&k, msg).as_ref().to_vec()
}

// ---------------------------------------------------------------------------
// Decimal text of an epoch

pub open spec fn digit_char(d: int) -> char {
    seq!['0', '1', '2', '3', '4', '5', '6', '7', '8', '9'][d]
}

pub open spec fn digits(n: nat) -> Seq<char>
    decreases n,
{
    if n < 10 {
        seq![digit_char(n as int)]
    } else {
        digits(n / 10).push(digit_char(n as int % 10))
    }
}

/// Decimal text of an integer, with a leading minus sign when negative.
pub open spec fn decimal(n: int) -> Seq<char> {
    if n < 0 {
        seq!['-'] + digits((-n) as nat)
    } else {
        digits(n as nat)
    }
}

/// The text of one decimal digit.
fn digit_text(d: u64) -> (t: &'static str)
    requires
        d < 10,
    ensures
        t@ == seq![digit_char(d as int)],
{
    match d {
        0 => {
            proof {
                reveal_strlit("0");
            }
            "0"
        },
        1 => {
            proof {
                reveal_strlit("1");
            }
            "1"
        },
        2 => {
            proof {
                reveal_strlit("2");
            }
            "2"
        },
        3 => {
            proof {
                reveal_strlit("3");
            }
            "3"
        },
        4 => {
            proof {
                reveal_strlit("4");
            }
            "4"
        },
        5 => {
            proof {
                reveal_strlit("5");
            }
            "5"
        },
        6 => {
            proof {
                reveal_strlit("6");
            }
            "6"
        },
        7 => {
            proof {
                reveal_strlit("7");
            }
            "7"
        },
        8 => {
            proof {
                reveal_strlit("8");
            }
            "8"
        },
        _ => {
            proof {
                reveal_strlit("9");
            }
            "9"
        },
    }
}

/// The decimal digits of `m`, least significant first, read back in order.
pub open spec fn digits_of_rev(ds: Seq<u64>) -> Seq<char> {
    Seq::new(ds.len(), |i: int| digit_char(ds[ds.len() - 1 - i] as int))
}

/// Decimal text of an integer.
fn decimal_string(n: i64) -> (s: String)
    ensures
        s@ == decimal(n as int),
{
    let mut out = String::new();
    let m0: u64 = if n < 0 {
        proof {
            reveal_strlit("-");
        }
        out.append("-");
        (-(n as i128)) as u64
    } else {
        n as u64
    };
    let ghost prefix = out@;
    let mut m: u64 = m0;
    let mut ds: Vec<u64> = Vec::new();
    let mut done = false;
    while !done
        invariant
            forall|i: int| 0 <= i < ds@.len() ==> #[trigger] ds@[i] < 10,
            done ==> digits(m0 as nat) == digits_of_rev(ds@),
            !done ==> digits(m0 as nat) == digits(m as nat) + digits_of_rev(ds@),
        decreases m + if done { 0int } else { 1int },
    {
        let ghost before = ds@;
        let ghost mm = m;
        ds.push(m % 10);
        assert(digits_of_rev(ds@) =~= seq![digit_char((mm % 10) as int)] + digits_of_rev(before));
        if m < 10 {
            done = true;
            assert(digits(mm as nat) == seq![digit_char(mm as int)]);
        } else {
            m = m / 10;
            assert(digits(mm as nat) == digits(m as nat).push(digit_char(mm as int % 10)));
            assert(digits(m as nat) + digits_of_rev(ds@) =~= digits(mm as nat) + digits_of_rev(before));
        }
    }
    let mut j: usize = ds.len();
    while j > 0
        invariant
            j <= ds@.len(),
            forall|i: int| 0 <= i < ds@.len() ==> #[trigger] ds@[i] < 10,
            out@ == prefix + digits_of_rev(ds@).subrange(0, ds@.len() - j),
        decreases j,
    {
        let t = digit_text(ds[j - 1]);
        out.append(t);
        j = j - 1;
        assert(digits_of_rev(ds@).subrange(0, ds@.len() - j) =~= digits_of_rev(ds@).subrange(
            0,
            ds@.len() - j - 1,
        ) + t@);
    }
    assert(digits_of_rev(ds@).subrange(0, ds@.len() as int) =~= digits_of_rev(ds@));
    out
}

// ---------------------------------------------------------------------------
// The rotation window

/// The epoch `k` periods away from the period holding `t`.
pub open spec fn epoch_of(t: int, d: int, k: int) -> int {
    (t / d + k) * d
}

pub open spec fn fetched_value(f: Seq<Option<Vec<u8>>>) -> Seq<Option<Seq<u8>>> {
    f.map_values(
        |o: Option<Vec<u8>>|
            match o {
                Some(v) => Some(v@),
                None => None,
            },
    )
}

pub open spec fn all_present(f: Seq<Option<Seq<u8>>>) -> bool {
    forall|j: int| 0 <= j < f.len() ==> #[trigger] f[j] is Some
}

/// The map after installing the first `j` fetched slots of the window that
/// starts `b` periods before the one holding `t`.
pub open spec fn installed(
    keys: Map<u32, Seq<u8>>,
    master: Seq<u8>,
    t: int,
    d: int,
    b: int,
    fetched: Seq<Option<Seq<u8>>>,
    j: nat,
) -> Map<u32, Seq<u8>>
    decreases j,
{
    if j == 0 || j > fetched.len() {
        keys
    } else {
        let prev = installed(keys, master, t, d, b, fetched, (j - 1) as nat);
        match fetched[j - 1] {
            Some(raw) => prev.insert(slot_key(epoch_of(t, d, j - 1 - b)), hmac_sha256(master, raw)),
            None => prev,
        }
    }
}

/// The map after a rotation at `t`: every fetched slot installed, then the
/// slot just behind the window retired.
pub open spec fn rotated(
    keys: Map<u32, Seq<u8>>,
    master: Seq<u8>,
    t: int,
    d: int,
    b: int,
    fetched: Seq<Option<Seq<u8>>>,
) -> Map<u32, Seq<u8>> {
    installed(keys, master, t, d, b, fetched, fetched.len()).remove(slot_key(epoch_of(t, d, -b - 1)))
}

proof fn lemma_epoch_between(t: int, d: int, k1: int, k: int, k2: int)
    requires
        d > 0,
        k1 <= k <= k2,
    ensures
        epoch_of(t, d, k1) <= epoch_of(t, d, k) <= epoch_of(t, d, k2),
{
    let q = t / d;
    assert((q + k1) * d <= (q + k) * d) by (nonlinear_arith)
        requires k1 <= k, d > 0;
    assert((q + k) * d <= (q + k2) * d) by (nonlinear_arith)
        requires k <= k2, d > 0;
}

impl RotatingKeys {
    pub open spec fn well_formed(&self) -> bool {
        &&& self.duration > 0
        &&& self.forward_periods >= 0
        &&& self.backward_periods >= 0
        &&& self.master_key@.len() < HMAC_INPUT_LIMIT
    }

    /// Number of slots in the window.
    pub open spec fn window_len(&self) -> int {
        self.forward_periods + self.backward_periods + 1
    }

    /// Every epoch a rotation at `t` touches is an `i64`.
    pub open spec fn fits(&self, t: int) -> bool {
        &&& i64::MIN <= epoch_of(t, self.duration as int, -self.backward_periods - 1)
        &&& epoch_of(t, self.duration as int, self.forward_periods as int) <= i64::MAX
    }

    pub open spec fn keys_view(&self) -> Map<u32, Seq<u8>> {
        self.keys@.map_values(|v: Vec<u8>| v@)
    }

    /// Everything but the keys and `latest` is the same in both.
    pub open spec fn same_settings(&self, other: &RotatingKeys) -> bool {
        &&& self.memcache_url == other.memcache_url
        &&& self.prefix == other.prefix
        &&& self.duration == other.duration
        &&& self.forward_periods == other.forward_periods
        &&& self.backward_periods == other.backward_periods
        &&& self.master_key == other.master_key
    }

    /// What `next` holds after a rotation of `self` at `t` with the cache
    /// contents `f`, and whether that rotation succeeded.
    pub open spec fn rotation_outcome(&self, next: &RotatingKeys, t: int, f: Seq<Option<Seq<u8>>>, ok: bool) -> bool {
        &&& f.len() == self.window_len()
        &&& next.keys_view() == rotated(
            self.keys_view(),
            self.master_key@,
            t,
            self.duration as int,
            self.backward_periods as int,
            f,
        )
        &&& next.latest@ == key_id_bytes(epoch_of(t, self.duration as int, 0))
        &&& next.same_settings(self)
        &&& (ok <==> all_present(f))
    }

    /// Every epoch of the window at `t`, and of the slot behind it, is an `i64`.
    proof fn lemma_window_epoch_fits(&self, t: int, k: int)
        requires
            self.well_formed(),
            self.fits(t),
            -self.backward_periods - 1 <= k <= self.forward_periods,
        ensures
            i64::MIN <= epoch_of(t, self.duration as int, k) <= i64::MAX,
    {
        lemma_epoch_between(
            t,
            self.duration as int,
            -self.backward_periods - 1,
            k,
            self.forward_periods as int,
        );
    }

    /// The epoch `offset` periods from the one holding `seconds`.
    fn epoch(&self, seconds: i64, offset: i128) -> (e: i64)
        requires
            self.duration > 0,
            seconds >= 0,
            i64::MIN <= epoch_of(seconds as int, self.duration as int, offset as int) <= i64::MAX,
        ensures
            e == epoch_of(seconds as int, self.duration as int, offset as int),
    {
        let q: i64 = seconds / self.duration;
        let ghost m = q + offset;
        let ghost d = self.duration as int;
        assert(-0x8000_0000_0000_0000 <= m <= 0x7FFF_FFFF_FFFF_FFFF) by (nonlinear_arith)
            requires
                -0x8000_0000_0000_0000 <= m * d <= 0x7FFF_FFFF_FFFF_FFFF,
                d >= 1,
        {
            if m > 0 {
                assert(m <= m * d);
            } else if m < 0 {
                assert(m * d <= m);
            }
        }
        let e: i128 = (q as i128 + offset) * (self.duration as i128);
        e as i64
    }

    /// Whether the settings are usable: a positive period, non-negative
    /// window offsets and a master key the HMAC accepts.
    pub fn is_well_formed(&self) -> (ok: bool)
        ensures
            ok == self.well_formed(),
    {
        self.duration > 0 && self.forward_periods >= 0 && self.backward_periods >= 0
            && (self.master_key.len() as u64) < HMAC_INPUT_LIMIT
    }

    /// Whether every epoch a rotation at `t` touches is an `i64`.
    pub fn window_fits(&self, t: i64) -> (ok: bool)
        requires
            self.well_formed(),
            t >= 0,
        ensures
            ok == self.fits(t as int),
    {
        let d: i128 = self.duration as i128;
        let q: i128 = (t / self.duration) as i128;
        let b: i128 = self.backward_periods as i128;
        let f: i128 = self.forward_periods as i128;
        assert(0 <= q <= 0x7FFF_FFFF_FFFF_FFFF);
        assert(-0x8000_0000_0000_0000 <= q - b - 1 <= 0x7FFF_FFFF_FFFF_FFFF);
        assert(0 <= q + f <= 0xFFFF_FFFF_FFFF_FFFE);
        assert(-0x4000_0000_0000_0000_0000_0000_0000_0000 <= (q - b - 1) * d <= 0x4000_0000_0000_0000_0000_0000_0000_0000)
            by (nonlinear_arith)
            requires
                -0x8000_0000_0000_0000 <= q - b - 1 <= 0x7FFF_FFFF_FFFF_FFFF,
                1 <= d <= 0x7FFF_FFFF_FFFF_FFFF;
        assert(0 <= (q + f) * d <= 0x7FFF_FFFF_FFFF_FFFF_0000_0000_0000_0000)
            by (nonlinear_arith)
            requires
                0 <= q + f <= 0xFFFF_FFFF_FFFF_FFFE,
                1 <= d <= 0x7FFF_FFFF_FFFF_FFFF;
        let first: i128 = (q - b - 1) * d;
        let last: i128 = (q + f) * d;
        first >= i64::MIN as i128 && last <= i64::MAX as i128
    }

    /// The HMAC of a raw key under the master key.
    fn compute_wrap(&self, val: &Vec<u8>) -> (w: Vec<u8>)
        requires
            self.master_key@.len() < HMAC_INPUT_LIMIT,
            val@.len() < HMAC_INPUT_LIMIT,
        ensures
            w@ == hmac_sha256(self.master_key@, val@),
            w@.len() == 32,
    {
        hmac_sha256_sign(self.master_key.as_slice(), val.as_slice())
    }

    /// The cache name of an epoch's raw key: the prefix, a slash, the decimal epoch.
    pub fn cache_key(&self, epoch: i64) -> (name: String)
        ensures
            name@ == self.prefix@ + seq!['/'] + decimal(epoch as int),
    {
        let mut name = self.prefix.clone();
        proof {
            reveal_strlit("/");
        }
        name.append("/");
        let digits = decimal_string(epoch);
        name.append(digits.as_str());
        name
    }


    /// Installs the fetched slots of the window at `timestamp`, retires the
    /// slot behind the window and publishes the current epoch as latest.
    /// A missing slot leaves its entry as it was and makes the result an error.
    pub fn apply_rotation(&mut self, timestamp: i64, fetched: Vec<Option<Vec<u8>>>) -> (r: Result<(), RotationError>)
        requires
            old(self).well_formed(),
            timestamp >= 0,
            old(self).fits(timestamp as int),
            fetched@.len() == old(self).window_len(),
            forall|j: int|
                0 <= j < fetched@.len() ==> (#[trigger] fetched@[j] matches Some(v) ==> v@.len()
                    < HMAC_INPUT_LIMIT),
        ensures
            old(self).rotation_outcome(final(self), timestamp as int, fetched_value(fetched@), r is Ok),
            r is Err ==> r == Err::<(), RotationError>(RotationError::CacheMissFailure),
    {
        let ghost keys0 = self.keys_view();
        let ghost fv = fetched_value(fetched@);
        let ghost t = timestamp as int;
        let ghost d = self.duration as int;
        let ghost b = self.backward_periods as int;
        let mut failed = false;
        let mut j: usize = 0;
        while j < fetched.len()
            invariant
                self.well_formed(),
                self.same_settings(old(self)),
                timestamp >= 0,
                self.fits(t),
                fv == fetched_value(fetched@),
                fetched@.len() == self.window_len(),
                forall|i: int|
                    0 <= i < fetched@.len() ==> (#[trigger] fetched@[i] matches Some(v) ==> v@.len()
                        < HMAC_INPUT_LIMIT),
                j <= fetched@.len(),
                t == timestamp as int,
                d == self.duration as int,
                b == self.backward_periods as int,
                self.keys_view() == installed(keys0, self.master_key@, t, d, b, fv, j as nat),
                failed <==> exists|i: int| 0 <= i < j && #[trigger] fv[i] is None,
            decreases fetched@.len() - j,
        {
            let offset: i128 = j as i128 - self.backward_periods as i128;
            proof {
                self.lemma_window_epoch_fits(timestamp as int, offset as int);
            }
            let e = self.epoch(timestamp, offset);
            let k = epoch_key(e);
            let ghost prev = self.keys_view();
            assert(fv[j as int] == match fetched@[j as int] {
                Some(v) => Some(v@),
                None => None::<Seq<u8>>,
            });
            match &fetched[j] {
                Some(raw) => {
                    let w = self.compute_wrap(raw);
                    let ghost before = self.keys@;
                    self.keys.insert(k, w);
                    assert(self.keys_view() =~= before.map_values(|v: Vec<u8>| v@).insert(k, w@));
                },
                None => {
                    failed = true;
                },
            }
            j = j + 1;
            assert(self.keys_view() == installed(keys0, self.master_key@, t, d, b, fv, j as nat));
        }
        proof {
            self.lemma_window_epoch_fits(timestamp as int, -self.backward_periods - 1);
            self.lemma_window_epoch_fits(timestamp as int, 0);
        }
        let retire = self.epoch(timestamp, -(self.backward_periods as i128) - 1);
        let ghost before = self.keys@;
        self.keys.remove(&epoch_key(retire));
        assert(self.keys_view() =~= before.map_values(|v: Vec<u8>| v@).remove(slot_key(retire as int)));
        let now = self.epoch(timestamp, 0);
        self.latest = be_bytes(now);
        if failed {
            Err(RotationError::CacheMissFailure)
        } else {
            Ok(())
        }
    }

    /// Reads the raw key of every window slot at `timestamp` from the cache,
    /// oldest first. A failed query, or a value too long to wrap, ends the
    /// read with a transport failure.
    fn fetch_window<V: VecMap>(&self, cache: &mut V, timestamp: i64) -> (r: Result<Vec<Option<Vec<u8>>>, RotationError>)
        requires
            self.well_formed(),
            timestamp >= 0,
            self.fits(timestamp as int),
        ensures
            match r {
                Ok(f) => f@.len() == self.window_len() && forall|j: int|
                    0 <= j < f@.len() ==> (#[trigger] f@[j] matches Some(v) ==> v@.len() < HMAC_INPUT_LIMIT),
                Err(e) => e == RotationError::CacheTransportFailure,
            },
    {
        let mut fetched: Vec<Option<Vec<u8>>> = Vec::new();
        let mut offset: i128 = -(self.backward_periods as i128);
        while offset <= self.forward_periods as i128
            invariant
                self.well_formed(),
                timestamp >= 0,
                self.fits(timestamp as int),
                -self.backward_periods <= offset <= self.forward_periods + 1,
                fetched@.len() == offset + self.backward_periods,
                forall|j: int|
                    0 <= j < fetched@.len() ==> (#[trigger] fetched@[j] matches Some(v) ==> v@.len()
                        < HMAC_INPUT_LIMIT),
            decreases self.forward_periods + 1 - offset,
        {
            proof {
                self.lemma_window_epoch_fits(timestamp as int, offset as int);
            }
            let e = self.epoch(timestamp, offset);
            let name = self.cache_key(e);
            match cache.get(name.as_str()) {
                Ok(Some(raw)) => {
                    if raw.len() as u64 >= HMAC_INPUT_LIMIT {
                        return Err(RotationError::CacheTransportFailure);
                    }
                    fetched.push(Some(raw));
                },
                Ok(None) => {
                    fetched.push(None);
                },
                Err(_) => {
                    return Err(RotationError::CacheTransportFailure);
                },
            }
            offset = offset + 1;
        }
        Ok(fetched)
    }

    /// Rotates the keys at `timestamp` (seconds since the Unix epoch), reading
    /// raw keys from `cache`. A time before the epoch is a clock failure and a
    /// failed query a transport failure; neither changes anything. Otherwise
    /// the window is installed from what the cache held: the rotation succeeds
    /// exactly when every slot was present, and a missing slot still leaves
    /// the other slots installed, the old slot retired and the latest published.
    pub fn internal_rotate<V: VecMap>(&mut self, cache: &mut V, timestamp: i64) -> (r: Result<(), RotationError>)
        requires
            old(self).well_formed(),
            timestamp >= 0 ==> old(self).fits(timestamp as int),
        ensures
            timestamp < 0 ==> r == Err::<(), RotationError>(RotationError::ClockFailure),
            timestamp >= 0 ==> r != Err::<(), RotationError>(RotationError::ClockFailure),
            r matches Err(e) && e != RotationError::CacheMissFailure ==> *final(self) == *old(self),
            r is Ok || r == Err::<(), RotationError>(RotationError::CacheMissFailure) ==> exists|
                f: Seq<Option<Seq<u8>>>,
            | #[trigger] old(self).rotation_outcome(final(self), timestamp as int, f, r is Ok),
            r is Ok || r == Err::<(), RotationError>(RotationError::CacheMissFailure) ==> {
                &&& !final(self).keys_view().contains_key(
                    slot_key(epoch_of(timestamp as int, old(self).duration as int, -old(self).backward_periods - 1)),
                )
                &&& final(self).latest@ == key_id_bytes(epoch_of(timestamp as int, old(self).duration as int, 0))
            },
    {
        if timestamp < 0 {
            return Err(RotationError::ClockFailure);
        }
        let fetched = match self.fetch_window(cache, timestamp) {
            Ok(f) => f,
            Err(e) => {
                return Err(e);
            },
        };
        let ghost fv = fetched_value(fetched@);
        let ghost start = *self;
        let r = self.apply_rotation(timestamp, fetched);
        assert(start.rotation_outcome(self, timestamp as int, fv, r is Ok));
        proof {
            lemma_retired_slot_absent(
                start.keys_view(),
                start.master_key@,
                timestamp as int,
                start.duration as int,
                start.backward_periods as int,
                fv,
            );
        }
        r
    }

    /// Rotates the keys at the current time, given as whole seconds since the
    /// Unix epoch, or `None` when the clock reads a time before it.
    pub fn rotate_keys<V: VecMap>(&mut self, cache: &mut V, now_secs: Option<u64>) -> (r: Result<(), RotationError>)
        requires
            old(self).well_formed(),
            now_secs matches Some(s) ==> s <= i64::MAX && old(self).fits(s as int),
        ensures
            now_secs is None ==> r == Err::<(), RotationError>(RotationError::ClockFailure) && *final(self) == *old(self),
            now_secs is Some ==> r != Err::<(), RotationError>(RotationError::ClockFailure),
            r matches Err(e) && e != RotationError::CacheMissFailure ==> *final(self) == *old(self),
            now_secs matches Some(s) ==> ((r is Ok || r == Err::<(), RotationError>(
                RotationError::CacheMissFailure,
            )) ==> exists|f: Seq<Option<Seq<u8>>>|
                #[trigger] old(self).rotation_outcome(final(self), s as int, f, r is Ok)),
    {
        match now_secs {
            None => Err(RotationError::ClockFailure),
            Some(s) => self.internal_rotate(cache, s as i64),
        }
    }

    /// The latest KeyID and the wrapped key stored under it.
    pub fn latest(&self) -> (r: (KeyID, Vec<u8>))
        requires
            self.keys_view().contains_key(be32(self.latest@) as u32),
        ensures
            r.0 == self.latest,
            r.1@ == self.keys_view()[be32(self.latest@) as u32],
    {
        let k = key_id_value(&self.latest);
        match self.keys.get(&k) {
            Some(v) => (self.latest, v.clone()),
            None => vstd::pervasive::unreached(),
        }
    }
}

// ---------------------------------------------------------------------------
// Laws of the rotation

/// The slot just behind the window holds no key after a rotation.
pub proof fn lemma_retired_slot_absent(
    keys: Map<u32, Seq<u8>>,
    master: Seq<u8>,
    t: int,
    d: int,
    b: int,
    fetched: Seq<Option<Seq<u8>>>,
)
    ensures
        !rotated(keys, master, t, d, b, fetched).contains_key(slot_key(epoch_of(t, d, -b - 1))),
{
}

proof fn lemma_distinct_low32(a: int, c: int)
    requires
        0 < c - a < 0x1_0000_0000,
    ensures
        low32(a) != low32(c),
{
    assert(a == 0x1_0000_0000 * (a / 0x1_0000_0000) + low32(a));
    assert(c == 0x1_0000_0000 * (c / 0x1_0000_0000) + low32(c));
}

/// Rotations in two different periods less than 2^32 seconds apart publish
/// different latest KeyIDs.
pub proof fn lemma_latest_changes(d: int, t1: int, t2: int)
    requires
        d > 0,
        0 <= t1 < t2,
        epoch_of(t1, d, 0) < epoch_of(t2, d, 0),
        epoch_of(t2, d, 0) - epoch_of(t1, d, 0) < 0x1_0000_0000,
    ensures
        key_id_bytes(epoch_of(t1, d, 0)) != key_id_bytes(epoch_of(t2, d, 0)),
{
    lemma_key_id_value(epoch_of(t1, d, 0));
    lemma_key_id_value(epoch_of(t2, d, 0));
    lemma_distinct_low32(epoch_of(t1, d, 0), epoch_of(t2, d, 0));
}

/// The map keys of the first `j` slots of the window.
pub open spec fn window_keys(t: int, d: int, b: int, j: nat) -> Set<u32>
    decreases j,
{
    if j == 0 {
        Set::empty()
    } else {
        window_keys(t, d, b, (j - 1) as nat).insert(slot_key(epoch_of(t, d, j - 1 - b)))
    }
}

proof fn lemma_epoch_gap(t: int, d: int, k1: int, k2: int)
    requires
        d > 0,
        k1 < k2,
    ensures
        epoch_of(t, d, k2) - epoch_of(t, d, k1) == (k2 - k1) * d,
        (k2 - k1) * d >= d,
{
    let q = t / d;
    assert((q + k2) * d - (q + k1) * d == (k2 - k1) * d) by (nonlinear_arith);
    assert((k2 - k1) * d >= d) by (nonlinear_arith)
        requires k1 < k2, d > 0;
}

proof fn lemma_gap_small(d: int, g: int, n: int)
    requires
        d > 0,
        0 < g <= n,
        n * d < 0x1_0000_0000,
    ensures
        g * d < 0x1_0000_0000,
{
    assert(g * d <= n * d) by (nonlinear_arith)
        requires g <= n, d > 0;
}

/// Slots `i < j` of a window of `n` slots of `d` seconds with `n * d < 2^32`
/// have distinct map keys.
proof fn lemma_slot_keys_distinct(t: int, d: int, b: int, n: int, i: int, j: int)
    requires
        d > 0,
        0 <= i < j < n,
        n * d < 0x1_0000_0000,
    ensures
        slot_key(epoch_of(t, d, i - b)) != slot_key(epoch_of(t, d, j - b)),
{
    lemma_epoch_gap(t, d, i - b, j - b);
    lemma_gap_small(d, j - i, n);
    lemma_distinct_low32(epoch_of(t, d, i - b), epoch_of(t, d, j - b));
}

/// No slot of such a window has the map key of the slot behind it.
proof fn lemma_retired_key_distinct(t: int, d: int, b: int, n: int, j: int)
    requires
        d > 0,
        0 <= j < n,
        n * d < 0x1_0000_0000,
    ensures
        slot_key(epoch_of(t, d, -b - 1)) != slot_key(epoch_of(t, d, j - b)),
{
    lemma_epoch_gap(t, d, -b - 1, j - b);
    lemma_gap_small(d, j + 1, n);
    lemma_distinct_low32(epoch_of(t, d, -b - 1), epoch_of(t, d, j - b));
}

proof fn lemma_window_keys(t: int, d: int, b: int, n: int, j: nat)
    requires
        d > 0,
        j <= n,
        n * d < 0x1_0000_0000,
    ensures
        window_keys(t, d, b, j).finite(),
        window_keys(t, d, b, j).len() == j,
        !window_keys(t, d, b, j).contains(slot_key(epoch_of(t, d, -b - 1))),
        forall|i: int| j <= i < n ==> !window_keys(t, d, b, j).contains(#[trigger] slot_key(epoch_of(t, d, i - b))),
    decreases j,
{
    if j > 0 {
        lemma_window_keys(t, d, b, n, (j - 1) as nat);
        assert forall|i: int| j <= i < n implies !window_keys(t, d, b, j).contains(#[trigger] slot_key(epoch_of(t, d, i - b))) by {
            lemma_slot_keys_distinct(t, d, b, n, j - 1, i);
        }
        lemma_retired_key_distinct(t, d, b, n, j - 1);
    }
}

proof fn lemma_installed_domain(
    keys: Map<u32, Seq<u8>>,
    master: Seq<u8>,
    t: int,
    d: int,
    b: int,
    fetched: Seq<Option<Seq<u8>>>,
    j: nat,
)
    requires
        all_present(fetched),
        j <= fetched.len(),
    ensures
        installed(keys, master, t, d, b, fetched, j).dom() == keys.dom() + window_keys(t, d, b, j),
    decreases j,
{
    if j > 0 {
        lemma_installed_domain(keys, master, t, d, b, fetched, (j - 1) as nat);
        assert(fetched[j - 1] is Some);
        assert(installed(keys, master, t, d, b, fetched, j).dom() =~= keys.dom() + window_keys(t, d, b, j));
    } else {
        assert(keys.dom() + window_keys(t, d, b, 0) =~= keys.dom());
    }
}

/// After a successful rotation the map holds exactly one key per window slot,
/// `forward + backward + 1` keys in all, provided the window spans less than
/// 2^32 seconds (so that slot KeyIDs differ) and the map held nothing before
/// but keys of this window and of the slot behind it.
pub proof fn lemma_window_size(
    keys: Map<u32, Seq<u8>>,
    master: Seq<u8>,
    t: int,
    d: int,
    f: int,
    b: int,
    fetched: Seq<Option<Seq<u8>>>,
)
    requires
        d > 0,
        f >= 0,
        b >= 0,
        (f + b + 1) * d < 0x1_0000_0000,
        fetched.len() == f + b + 1,
        all_present(fetched),
        keys.dom().finite(),
        forall|k: u32|
            #[trigger] keys.contains_key(k) ==> k == slot_key(epoch_of(t, d, -b - 1))
                || window_keys(t, d, b, fetched.len()).contains(k),
    ensures
        rotated(keys, master, t, d, b, fetched).dom() == window_keys(t, d, b, fetched.len()),
        rotated(keys, master, t, d, b, fetched).len() == f + b + 1,
{
    let n = f + b + 1;
    lemma_window_keys(t, d, b, n, fetched.len());
    lemma_installed_domain(keys, master, t, d, b, fetched, fetched.len());
    assert(rotated(keys, master, t, d, b, fetched).dom() =~= window_keys(t, d, b, fetched.len()));
}

/// Installing slots other than `j` leaves the entry at slot `j`'s key as it was.
proof fn lemma_installed_other_slots(
    keys: Map<u32, Seq<u8>>,
    master: Seq<u8>,
    t: int,
    d: int,
    b: int,
    fetched: Seq<Option<Seq<u8>>>,
    j: int,
    m: nat,
)
    requires
        d > 0,
        0 <= j < fetched.len(),
        m <= fetched.len(),
        fetched.len() * d < 0x1_0000_0000,
    ensures
        m <= j ==> installed(keys, master, t, d, b, fetched, m).contains_key(slot_key(epoch_of(t, d, j - b)))
            == keys.contains_key(slot_key(epoch_of(t, d, j - b))) && installed(keys, master, t, d, b, fetched, m)[slot_key(epoch_of(t, d, j - b))]
            == keys[slot_key(epoch_of(t, d, j - b))],
        m > j ==> installed(keys, master, t, d, b, fetched, m).contains_key(slot_key(epoch_of(t, d, j - b)))
            == installed(keys, master, t, d, b, fetched, (j + 1) as nat).contains_key(slot_key(epoch_of(t, d, j - b)))
            && installed(keys, master, t, d, b, fetched, m)[slot_key(epoch_of(t, d, j - b))]
            == installed(keys, master, t, d, b, fetched, (j + 1) as nat)[slot_key(epoch_of(t, d, j - b))],
    decreases m,
{
    if m > 0 && m != j + 1 {
        lemma_installed_other_slots(keys, master, t, d, b, fetched, j, (m - 1) as nat);
        let i = m - 1;
        if i < j {
            lemma_slot_keys_distinct(t, d, b, fetched.len() as int, i, j);
        } else {
            lemma_slot_keys_distinct(t, d, b, fetched.len() as int, j, i);
        }
    }
}

/// After a rotation whose window spans less than 2^32 seconds, a slot the
/// cache held carries the HMAC of its raw key under the master key, and a
/// slot the cache lacked keeps the entry it had before.
pub proof fn lemma_slot_contents(
    keys: Map<u32, Seq<u8>>,
    master: Seq<u8>,
    t: int,
    d: int,
    b: int,
    fetched: Seq<Option<Seq<u8>>>,
    j: int,
)
    requires
        d > 0,
        0 <= j < fetched.len(),
        fetched.len() * d < 0x1_0000_0000,
    ensures
        fetched[j] matches Some(raw) ==> rotated(keys, master, t, d, b, fetched).contains_key(slot_key(epoch_of(t, d, j - b)))
            && rotated(keys, master, t, d, b, fetched)[slot_key(epoch_of(t, d, j - b))] == hmac_sha256(master, raw),
        fetched[j] is None ==> rotated(keys, master, t, d, b, fetched).contains_key(slot_key(epoch_of(t, d, j - b)))
            == keys.contains_key(slot_key(epoch_of(t, d, j - b))) && rotated(keys, master, t, d, b, fetched)[slot_key(epoch_of(t, d, j - b))]
            == keys[slot_key(epoch_of(t, d, j - b))],
{
    let n = fetched.len();
    lemma_installed_other_slots(keys, master, t, d, b, fetched, j, n);
    lemma_installed_other_slots(keys, master, t, d, b, fetched, j, j as nat);
    lemma_retired_key_distinct(t, d, b, n as int, j);
}

} // verus!
