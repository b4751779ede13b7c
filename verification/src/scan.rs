//! Cursor lifecycle manager: wraps the opaque scan-progress token, keeps the
//! scan-state registry that maps tokens to live scan state, and parses the
//! positional filter arguments of a scan request.

use vstd::prelude::*;

use crate::response::copy_bytes;

verus! {

/// The engine's shared reference to resumable scan progress; opaque to this
/// layer, carried between the registry and the scan call.
#[verifier::external_type_specification]
#[verifier::external_body]
pub struct ExScanStateRC(redis::ScanStateRC);

/// Relies on `redis::ScanStateRC::new`: fresh, empty scan progress,
/// equivalent to starting a scan from the beginning.
#[verifier::external_body]
fn fresh_scan_state() -> redis::ScanStateRC {
    redis::ScanStateRC::new()
}

/// Relies on `redis::ScanStateRC::clone`: a field-wise clone of the shared
/// reference designates the same scan state as the original.
#[verifier::external_body]
fn scan_state_clone(state: &redis::ScanStateRC) -> (r: redis::ScanStateRC)
    ensures
        r == *state,
{
    state.clone()
}

/// Registry of live scan progress, keyed by cursor token. Supplied at handle
/// creation and threaded through scan operations; destroying a cursor
/// removes its entry here, which drops the scan state it kept alive.
pub struct ScanRegistry {
    pub entries: Vec<(String, redis::ScanStateRC)>,
}

impl ScanRegistry {
    /// Well-formed: no token occurs twice.
    pub open spec fn wf(&self) -> bool {
        forall|i: int, j: int|
            0 <= i < j < self.entries@.len() ==> #[trigger] self.entries@[i].0@
                != #[trigger] self.entries@[j].0@
    }

    pub open spec fn contains_token(&self, t: Seq<char>) -> bool {
        exists|i: int| 0 <= i < self.entries@.len() && #[trigger] self.entries@[i].0@ == t
    }

    pub open spec fn has_entry(&self, t: Seq<char>, state: redis::ScanStateRC) -> bool {
        exists|i: int|
            0 <= i < self.entries@.len() && #[trigger] self.entries@[i].0@ == t
                && self.entries@[i].1 == state
    }

    /// An empty registry.
    pub fn new() -> (r: Self)
        ensures
            r.wf(),
            r.entries@.len() == 0,
    {
        ScanRegistry { entries: Vec::new() }
    }

    /// How many scans currently hold registered progress.
    pub fn len(&self) -> (n: usize)
        ensures
            n == self.entries@.len(),
    {
        self.entries.len()
    }

    /// Registers `state` under `token`, replacing any previous entry for the
    /// same token, as a map insertion would.
    #[verifier::loop_isolation(false)]
    pub fn insert(&mut self, token: String, state: redis::ScanStateRC)
        requires
            old(self).wf(),
        ensures
            final(self).wf(),
            final(self).has_entry(token@, state),
            forall|t: Seq<char>|
                #[trigger] final(self).contains_token(t) <==> (old(self).contains_token(t) || t
                    == token@),
            old(self).contains_token(token@) ==> final(self).entries@.len() == old(
                self,
            ).entries@.len(),
            !old(self).contains_token(token@) ==> final(self).entries@.len() == old(
                self,
            ).entries@.len() + 1,
            forall|t: Seq<char>, s: redis::ScanStateRC|
                t != token@ ==> (#[trigger] final(self).has_entry(t, s) <==> old(self).has_entry(
                    t,
                    s,
                )),
    {
        let n = self.entries.len();
        for i in 0..n
            invariant
                n == self.entries@.len(),
                *self == *old(self),
                forall|j: int| 0 <= j < i ==> #[trigger] self.entries@[j].0@ != token@,
        {
            if self.entries[i].0 == token {
                proof {
                    assert(old(self).entries@[i as int].0@ == token@);
                }
                self.entries.set(i, (token, state));
                proof {
                    let prev = old(self).entries@;
                    let cur = self.entries@;
                    assert(cur == prev.update(i as int, (token, state)));
                    assert(cur[i as int].0@ == token@ && cur[i as int].1 == state);
                    assert forall|a: int, b: int|
                        0 <= a < b < cur.len() implies #[trigger] cur[a].0@
                        != #[trigger] cur[b].0@ by {
                        assert(cur[a].0@ == prev[a].0@);
                        assert(cur[b].0@ == prev[b].0@);
                    }
                    assert forall|t: Seq<char>|
                        #[trigger] self.contains_token(t) <==> (old(self).contains_token(t) || t
                            == token@) by {
                        if self.contains_token(t) {
                            let k = choose|k: int|
                                0 <= k < cur.len() && #[trigger] cur[k].0@ == t;
                            assert(prev[k].0@ == t);
                        }
                        if old(self).contains_token(t) {
                            let k = choose|k: int|
                                0 <= k < prev.len() && #[trigger] prev[k].0@ == t;
                            assert(cur[k].0@ == t);
                        }
                        if t == token@ {
                            assert(cur[i as int].0@ == t);
                        }
                    }
                    assert forall|t: Seq<char>, s: redis::ScanStateRC|
                        t != token@ implies (#[trigger] self.has_entry(t, s) <==> old(
                        self,
                    ).has_entry(t, s)) by {
                        if self.has_entry(t, s) {
                            let k = choose|k: int|
                                0 <= k < cur.len() && #[trigger] cur[k].0@ == t && cur[k].1 == s;
                            assert(prev[k].0@ == t && prev[k].1 == s);
                        }
                        if old(self).has_entry(t, s) {
                            let k = choose|k: int|
                                0 <= k < prev.len() && #[trigger] prev[k].0@ == t && prev[k].1
                                    == s;
                            assert(cur[k].0@ == t && cur[k].1 == s);
                        }
                    }
                }
                return ;
            }
        }
        self.entries.push((token, state));
        proof {
            let prev = old(self).entries@;
            let cur = self.entries@;
            assert(cur == prev.push((token, state)));
            assert(cur[cur.len() - 1].0@ == token@ && cur[cur.len() - 1].1 == state);
            assert forall|a: int, b: int|
                0 <= a < b < cur.len() implies #[trigger] cur[a].0@ != #[trigger] cur[b].0@ by {
                if b < cur.len() - 1 {
                    assert(cur[a].0@ == prev[a].0@);
                    assert(cur[b].0@ == prev[b].0@);
                } else {
                    assert(cur[a].0@ == prev[a].0@);
                    assert(cur[b].0@ == token@);
                }
            }
            assert forall|t: Seq<char>|
                #[trigger] self.contains_token(t) <==> (old(self).contains_token(t) || t
                    == token@) by {
                if self.contains_token(t) {
                    let k = choose|k: int| 0 <= k < cur.len() && #[trigger] cur[k].0@ == t;
                    if k < cur.len() - 1 {
                        assert(prev[k].0@ == t);
                    }
                }
                if old(self).contains_token(t) {
                    let k = choose|k: int| 0 <= k < prev.len() && #[trigger] prev[k].0@ == t;
                    assert(cur[k].0@ == t);
                }
                if t == token@ {
                    assert(cur[cur.len() - 1].0@ == t);
                }
            }
            assert forall|t: Seq<char>, s: redis::ScanStateRC|
                t != token@ implies (#[trigger] self.has_entry(t, s) <==> old(self).has_entry(
                t,
                s,
            )) by {
                if self.has_entry(t, s) {
                    let k = choose|k: int|
                        0 <= k < cur.len() && #[trigger] cur[k].0@ == t && cur[k].1 == s;
                    assert(k < cur.len() - 1);
                    assert(prev[k].0@ == t && prev[k].1 == s);
                }
                if old(self).has_entry(t, s) {
                    let k = choose|k: int|
                        0 <= k < prev.len() && #[trigger] prev[k].0@ == t && prev[k].1 == s;
                    assert(cur[k].0@ == t && cur[k].1 == s);
                }
            }
        }
    }

    /// Registers fresh, empty scan progress under `token`.
    pub fn register_fresh(&mut self, token: String)
        requires
            old(self).wf(),
        ensures
            final(self).wf(),
            final(self).contains_token(token@),
            forall|t: Seq<char>|
                #[trigger] final(self).contains_token(t) <==> (old(self).contains_token(t) || t
                    == token@),
    {
        let state = fresh_scan_state();
        self.insert(token, state);
    }

    /// Looks up the scan state registered under `token`.
    #[verifier::loop_isolation(false)]
    pub fn lookup(&self, token: &String) -> (r: Option<redis::ScanStateRC>)
        requires
            self.wf(),
        ensures
            r is Some <==> self.contains_token(token@),
            r matches Some(state) ==> self.has_entry(token@, state),
    {
        let n = self.entries.len();
        for i in 0..n
            invariant
                n == self.entries@.len(),
                forall|j: int| 0 <= j < i ==> #[trigger] self.entries@[j].0@ != token@,
        {
            if self.entries[i].0 == *token {
                return Some(scan_state_clone(&self.entries[i].1));
            }
        }
        None
    }

    /// Removes the entry keyed by `token`, if one exists. Exactly one entry
    /// leaves the registry when the token is present: the one at its
    /// (unique) position; every other entry stays, in order.
    #[verifier::loop_isolation(false)]
    pub fn remove(&mut self, token: &String) -> (removed: bool)
        requires
            old(self).wf(),
        ensures
            final(self).wf(),
            removed == old(self).contains_token(token@),
            !final(self).contains_token(token@),
            !removed ==> final(self).entries@ == old(self).entries@,
            removed ==> exists|i: int|
                0 <= i < old(self).entries@.len() && #[trigger] old(self).entries@[i].0@ == token@
                    && final(self).entries@ == old(self).entries@.remove(i),
            removed ==> final(self).entries@.len() + 1 == old(self).entries@.len(),
    {
        let n = self.entries.len();
        for i in 0..n
            invariant
                n == self.entries@.len(),
                *self == *old(self),
                forall|j: int| 0 <= j < i ==> #[trigger] self.entries@[j].0@ != token@,
        {
            if self.entries[i].0 == *token {
                self.entries.remove(i);
                proof {
                    let prev = old(self).entries@;
                    let cur = self.entries@;
                    assert(cur == prev.remove(i as int));
                    prev.remove_ensures(i as int);
                    assert forall|a: int, b: int|
                        0 <= a < b < cur.len() implies #[trigger] cur[a].0@ != #[trigger] cur[b].0@ by {
                        if a < i && b < i {
                            assert(cur[a] == prev[a] && cur[b] == prev[b]);
                        } else if a < i {
                            assert(cur[a] == prev[a] && cur[b] == prev[b + 1]);
                        } else {
                            assert(cur[a] == prev[a + 1] && cur[b] == prev[b + 1]);
                        }
                    }
                    assert(prev[i as int].0@ == token@);
                    assert forall|j: int| 0 <= j < cur.len() implies #[trigger] cur[j].0@
                        != token@ by {
                        if j < i {
                            assert(cur[j] == prev[j]);
                        } else {
                            assert(cur[j] == prev[j + 1]);
                        }
                    }
                }
                return true;
            }
        }
        false
    }
}

/// The opaque scan-progress token handed across the boundary. Destroying it
/// removes its entry from the scan-state registry; that removal is its sole
/// observable side effect beyond carrying the token.
pub struct ClusterScanCursor {
    cursor: String,
}

impl ClusterScanCursor {
    /// The token this cursor carries.
    pub closed spec fn token_spec(&self) -> Seq<char> {
        self.cursor@
    }

    /// Wraps a token. An absent or empty token yields the canonical start
    /// token `"0"`.
    pub fn new_cluster_cursor(new_cursor: Option<String>) -> (r: Self)
        ensures
            match new_cursor {
                Some(c) => if c@.len() > 0 {
                    r.token_spec() == c@
                } else {
                    r.token_spec() == "0"@
                },
                None => r.token_spec() == "0"@,
            },
    {
        match new_cursor {
            Some(c) => {
                if c.as_str().is_empty() {
                    Self::start()
                } else {
                    ClusterScanCursor { cursor: c }
                }
            },
            None => Self::start(),
        }
    }

    /// The cursor positioned at the start of the key space.
    fn start() -> (r: Self)
        ensures
            r.token_spec() == "0"@,
    {
        ClusterScanCursor { cursor: "0".to_owned() }
    }

    /// Reads the token back.
    pub fn get_cursor(&self) -> (r: &String)
        ensures
            r@ == self.token_spec(),
    {
        &self.cursor
    }

    /// Destroys the cursor: removes the entry keyed by its token from the
    /// scan-state registry, exactly once, dropping the scan progress that
    /// entry kept alive.
    pub fn destroy(self, registry: &mut ScanRegistry) -> (removed: bool)
        requires
            old(registry).wf(),
        ensures
            final(registry).wf(),
            removed == old(registry).contains_token(self.token_spec()),
            !final(registry).contains_token(self.token_spec()),
            removed ==> exists|i: int|
                0 <= i < old(registry).entries@.len() && #[trigger] old(registry).entries@[i].0@
                    == self.token_spec() && final(registry).entries@ == old(
                    registry,
                ).entries@.remove(i),
            !removed ==> final(registry).entries@ == old(registry).entries@,
    {
        registry.remove(&self.cursor)
    }
}

impl Default for ClusterScanCursor {
    /// The default cursor carries the canonical start token `"0"`.
    fn default() -> (r: Self)
        ensures
            r.token_spec() == "0"@,
    {
        Self::start()
    }
}

/// The scan state to resume from: the progress registered under the token,
/// or fresh empty progress when the token is unknown or expired - a
/// tolerated recovery path, not an error.
pub fn scan_state_for(registry: &ScanRegistry, token: &String) -> (r: redis::ScanStateRC)
    requires
        registry.wf(),
    ensures
        registry.contains_token(token@) ==> registry.has_entry(token@, r),
{
    match registry.lookup(token) {
        Some(state) => state,
        None => fresh_scan_state(),
    }
}

/// An ASCII decimal digit.
pub open spec fn is_ascii_digit(b: u8) -> bool {
    48 <= b <= 57
}

/// The number denoted by a sequence of decimal digits, most significant
/// first.
pub open spec fn digits_value(s: Seq<u8>) -> nat
    decreases s,
{
    if s.len() == 0 {
        0
    } else {
        digits_value(s.drop_last()) * 10 + (if is_ascii_digit(s.last()) {
            (s.last() - 48) as nat
        } else {
            0
        })
    }
}

pub open spec fn all_digits(s: Seq<u8>) -> bool {
    forall|i: int| 0 <= i < s.len() ==> is_ascii_digit(#[trigger] s[i])
}

/// An optional leading plus sign is accepted and ignored.
pub open spec fn strip_plus(s: Seq<u8>) -> Seq<u8> {
    if s.len() > 0 && s[0] == 43 {
        s.drop_first()
    } else {
        s
    }
}

/// Whether the bytes denote an unsigned 32-bit decimal integer, as the
/// standard string-to-integer conversion accepts it: an optional plus sign,
/// then at least one digit, with the value in range.
pub open spec fn valid_u32_bytes(s: Seq<u8>) -> bool {
    strip_plus(s).len() > 0 && all_digits(strip_plus(s)) && digits_value(strip_plus(s))
        <= u32::MAX
}

pub open spec fn u32_value(s: Seq<u8>) -> nat {
    digits_value(strip_plus(s))
}

proof fn lemma_digits_take_step(s: Seq<u8>, i: int)
    requires
        0 <= i < s.len(),
    ensures
        digits_value(s.take(i + 1)) == digits_value(s.take(i)) * 10 + (if is_ascii_digit(s[i]) {
            (s[i] - 48) as nat
        } else {
            0
        }),
{
    assert(s.take(i + 1).drop_last() =~= s.take(i));
    assert(s.take(i + 1).last() == s[i]);
}

proof fn lemma_digits_take_le(s: Seq<u8>, j: int)
    requires
        0 <= j <= s.len(),
    ensures
        digits_value(s.take(j)) <= digits_value(s),
    decreases s.len() - j,
{
    if j == s.len() {
        assert(s.take(j) =~= s);
    } else {
        lemma_digits_take_step(s, j);
        lemma_digits_take_le(s, j + 1);
    }
}

/// Parses an unsigned 32-bit decimal integer from raw bytes, accepting an
/// optional leading plus sign - the grammar the count filter value goes
/// through. Returns the value exactly when the bytes are a valid in-range
/// numeral; anything else (empty, a sign alone, a non-digit byte, a value
/// above the 32-bit range, non-UTF-8 noise) yields nothing.
#[verifier::loop_isolation(false)]
pub fn parse_u32(bytes: &[u8]) -> (r: Option<u32>)
    ensures
        r is Some <==> valid_u32_bytes(bytes@),
        r matches Some(v) ==> v == u32_value(bytes@),
{
    let len = bytes.len();
    let mut start: usize = 0;
    if len > 0 && bytes[0] == 43 {
        start = 1;
    }
    proof {
        if start == 1 {
            assert(strip_plus(bytes@) =~= bytes@.subrange(start as int, len as int));
        } else {
            assert(strip_plus(bytes@) =~= bytes@.subrange(start as int, len as int));
        }
    }
    let ghost digits = strip_plus(bytes@);
    if start == len {
        return None;
    }
    let mut acc: u64 = 0;
    for i in start..len
        invariant
            start <= i <= len,
            digits == bytes@.subrange(start as int, len as int),
            digits.len() == len - start,
            forall|j: int| 0 <= j < i - start ==> is_ascii_digit(#[trigger] digits[j]),
            acc == digits_value(digits.take(i - start)),
            acc <= u32::MAX,
    {
        let b = bytes[i];
        proof {
            assert(digits[i - start] == bytes@[i as int]);
        }
        if b < 48 || b > 57 {
            proof {
                assert(!is_ascii_digit(digits[i - start]));
            }
            return None;
        }
        proof {
            lemma_digits_take_step(digits, i - start);
        }
        acc = acc * 10 + ((b - 48) as u64);
        if acc > 0xFFFF_FFFF {
            proof {
                if all_digits(digits) {
                    lemma_digits_take_le(digits, i - start + 1);
                }
            }
            return None;
        }
    }
    proof {
        assert(digits.take(len - start) =~= digits);
    }
    Some(acc as u32)
}

/// The bytes of the pattern filter keyword.
pub open spec fn match_kw() -> Seq<u8> {
    seq![77u8, 65u8, 84u8, 67u8, 72u8]
}

/// The bytes of the object-type filter keyword.
pub open spec fn type_kw() -> Seq<u8> {
    seq![84u8, 89u8, 80u8, 69u8]
}

/// The bytes of the count filter keyword.
pub open spec fn count_kw() -> Seq<u8> {
    seq![67u8, 79u8, 85u8, 78u8, 84u8]
}

pub open spec fn is_scan_keyword(a: Seq<u8>) -> bool {
    a == match_kw() || a == type_kw() || a == count_kw()
}

fn is_match_kw(a: &Vec<u8>) -> (r: bool)
    ensures
        r == (a@ == match_kw()),
{
    let r = a.len() == 5 && a[0] == 77 && a[1] == 65 && a[2] == 84 && a[3] == 67 && a[4] == 72;
    proof {
        if r {
            assert(a@ =~= match_kw());
        }
        if a@ == match_kw() {
            assert(a@.len() == 5 && a@[0] == 77 && a@[1] == 65 && a@[2] == 84 && a@[3] == 67
                && a@[4] == 72);
        }
    }
    r
}

fn is_type_kw(a: &Vec<u8>) -> (r: bool)
    ensures
        r == (a@ == type_kw()),
{
    let r = a.len() == 4 && a[0] == 84 && a[1] == 89 && a[2] == 80 && a[3] == 69;
    proof {
        if r {
            assert(a@ =~= type_kw());
        }
        if a@ == type_kw() {
            assert(a@.len() == 4 && a@[0] == 84 && a@[1] == 89 && a@[2] == 80 && a@[3] == 69);
        }
    }
    r
}

fn is_count_kw(a: &Vec<u8>) -> (r: bool)
    ensures
        r == (a@ == count_kw()),
{
    let r = a.len() == 5 && a[0] == 67 && a[1] == 79 && a[2] == 85 && a[3] == 78 && a[4] == 84;
    proof {
        if r {
            assert(a@ =~= count_kw());
        }
        if a@ == count_kw() {
            assert(a@.len() == 5 && a@[0] == 67 && a@[1] == 79 && a@[2] == 85 && a@[3] == 78
                && a@[4] == 84);
        }
    }
    r
}

/// The value a filter keyword picks up: each occurrence of the keyword
/// consumes the immediately following argument, and a later occurrence
/// overrides an earlier one.
pub open spec fn kw_value(args: Seq<Seq<u8>>, kw: Seq<u8>) -> Option<Seq<u8>>
    decreases args,
{
    if args.len() < 2 {
        None
    } else if args[args.len() - 2] == kw {
        Some(args.last())
    } else {
        kw_value(args.drop_last(), kw)
    }
}

/// A filter value takes effect only when present and non-empty.
pub open spec fn effective_filter(v: Option<Seq<u8>>) -> Option<Seq<u8>> {
    match v {
        Some(b) => if b.len() > 0 {
            Some(b)
        } else {
            None
        },
        None => None,
    }
}

/// Whether the count filter, if present and non-empty, is a valid unsigned
/// 32-bit numeral.
pub open spec fn count_valid(args: Seq<Seq<u8>>) -> bool {
    match kw_value(args, count_kw()) {
        Some(c) => c.len() == 0 || valid_u32_bytes(c),
        None => true,
    }
}

/// The page-size hint the scan runs with: the parsed count filter, or ten
/// when the filter is absent or empty.
pub open spec fn effective_count(args: Seq<Seq<u8>>) -> nat {
    match kw_value(args, count_kw()) {
        Some(c) => if c.len() > 0 {
            u32_value(c)
        } else {
            10
        },
        None => 10,
    }
}

/// Whether the bytes are valid UTF-8: a function of the bytes alone.
pub uninterp spec fn is_utf8(bytes: Seq<u8>) -> bool;

/// Relies on `core::str::from_utf8`: whether a byte sequence is valid UTF-8
/// depends on the bytes alone, and an empty sequence is valid.
#[verifier::external_body]
fn check_utf8(bytes: &[u8]) -> (r: bool)
    ensures
        r == is_utf8(bytes@),
        bytes@.len() == 0 ==> r,
{
    core::str::from_utf8(bytes).is_ok()
}

/// Whether the object-type filter, if present, is validly encoded text.
pub open spec fn type_valid(args: Seq<Seq<u8>>) -> bool {
    match kw_value(args, type_kw()) {
        Some(t) => is_utf8(t),
        None => true,
    }
}

pub open spec fn byte_rows(s: Seq<Vec<u8>>) -> Seq<Seq<u8>> {
    s.map_values(|v: Vec<u8>| v@)
}

pub open spec fn opt_bytes_view(o: Option<Vec<u8>>) -> Option<Seq<u8>> {
    match o {
        Some(v) => Some(v@),
        None => None,
    }
}

/// Scan failure: a filter value that must be rejected.
#[derive(Clone, Copy, Debug, PartialEq, Eq, Structural)]
pub enum ScanParseError {
    /// The count filter value did not parse as an unsigned integer.
    InvalidCount,
    /// The object-type filter value was not validly encoded text.
    InvalidType,
}

impl ScanParseError {
    /// A human-readable description of the failure.
    pub fn message(&self) -> (r: &'static str)
        ensures
            self is InvalidCount ==> r@
                == "invalid COUNT argument: expected an unsigned integer"@,
            self is InvalidType ==> r@ == "invalid TYPE argument: expected valid text"@,
    {
        match self {
            ScanParseError::InvalidCount => "invalid COUNT argument: expected an unsigned integer",
            ScanParseError::InvalidType => "invalid TYPE argument: expected valid text",
        }
    }
}

/// The filters a scan step runs with, owned by this layer.
#[derive(Debug)]
pub struct ScanArgs {
    /// Key pattern to match, when one was given.
    pub match_pattern: Option<Vec<u8>>,
    /// Object-type name to filter by, as raw (UTF-8 checked) bytes.
    pub object_type: Option<Vec<u8>>,
    /// Page-size hint; ten unless a count filter said otherwise.
    pub count: u32,
}

/// Parses the positional filter arguments of a scan request: the recognized
/// keywords consume the immediately following argument as their value, a
/// later occurrence overriding an earlier one. A count value that does not
/// parse as an unsigned integer, or a type value that is not valid text, is
/// a hard failure - never a silent fallback to the default. An absent or
/// empty count defaults to ten.
///
/// A recognized keyword standing as the final argument would read past the
/// array; such input is excluded here, as the caller's contract.
#[verifier::loop_isolation(false)]
pub fn parse_cluster_scan_args(args: &Vec<Vec<u8>>) -> (r: Result<ScanArgs, ScanParseError>)
    requires
        args@.len() > 0 ==> !is_scan_keyword(byte_rows(args@)[args@.len() - 1]),
    ensures
        r is Ok <==> (count_valid(byte_rows(args@)) && type_valid(byte_rows(args@))),
        r == Result::<ScanArgs, ScanParseError>::Err(ScanParseError::InvalidCount) <==> !count_valid(
            byte_rows(args@),
        ),
        r == Result::<ScanArgs, ScanParseError>::Err(ScanParseError::InvalidType) <==> (count_valid(
            byte_rows(args@),
        ) && !type_valid(byte_rows(args@))),
        r matches Ok(sa) ==> {
            &&& opt_bytes_view(sa.match_pattern) == effective_filter(
                kw_value(byte_rows(args@), match_kw()),
            )
            &&& opt_bytes_view(sa.object_type) == effective_filter(
                kw_value(byte_rows(args@), type_kw()),
            )
            &&& sa.count == effective_count(byte_rows(args@))
        },
{
    let ghost rows = byte_rows(args@);
    let n = args.len();
    let mut pattern: Option<Vec<u8>> = None;
    let mut object_type: Option<Vec<u8>> = None;
    let mut count: Option<Vec<u8>> = None;
    for i in 0..n
        invariant
            opt_bytes_view(pattern) == kw_value(
                rows.take(if i < n { i + 1 } else { n as int }),
                match_kw(),
            ),
            opt_bytes_view(object_type) == kw_value(
                rows.take(if i < n { i + 1 } else { n as int }),
                type_kw(),
            ),
            opt_bytes_view(count) == kw_value(
                rows.take(if i < n { i + 1 } else { n as int }),
                count_kw(),
            ),
    {
        proof {
            assert(rows[i as int] == args@[i as int]@);
            if i + 1 < n {
                assert(rows.take(i + 2).drop_last() =~= rows.take(i + 1));
                assert(rows.take(i + 2).last() == rows[i + 1]);
                assert(rows.take(i + 2)[i as int] == rows[i as int]);
            }
            assert(match_kw() != type_kw() && match_kw() != count_kw() && type_kw()
                != count_kw()) by {
                assert(match_kw()[0] == 77 && count_kw()[0] == 67);
                assert(match_kw().len() == 5 && type_kw().len() == 4);
                assert(type_kw().len() == 4 && count_kw().len() == 5);
            }
        }
        if is_match_kw(&args[i]) {
            pattern = Some(copy_bytes(&args[i + 1]));
        } else if is_type_kw(&args[i]) {
            object_type = Some(copy_bytes(&args[i + 1]));
        } else if is_count_kw(&args[i]) {
            count = Some(copy_bytes(&args[i + 1]));
        }
        proof {
            if i + 1 == n {
                assert(rows.take(n as int) =~= rows);
            }
        }
    }
    proof {
        assert(rows.take(n as int) =~= rows);
    }
    let count_value: u32 = match &count {
        None => 10,
        Some(c) => {
            if c.len() == 0 {
                10
            } else {
                match parse_u32(c.as_slice()) {
                    Some(v) => v,
                    None => {
                        return Err(ScanParseError::InvalidCount);
                    },
                }
            }
        },
    };
    if let Some(t) = &object_type {
        if !check_utf8(t.as_slice()) {
            return Err(ScanParseError::InvalidType);
        }
    }
    let effective_pattern = match pattern {
        Some(p) => if p.len() > 0 {
            Some(p)
        } else {
            None
        },
        None => None,
    };
    let effective_type = match object_type {
        Some(t) => if t.len() > 0 {
            Some(t)
        } else {
            None
        },
        None => None,
    };
    Ok(ScanArgs { match_pattern: effective_pattern, object_type: effective_type, count: count_value })
}

/// Everything a scan step needs: the scan progress to resume from and the
/// parsed filters.
#[derive(Debug)]
pub struct ScanPlan {
    /// The progress registered under the cursor's token, or fresh progress
    /// when the token was unknown or expired.
    pub state: redis::ScanStateRC,
    /// The parsed filters.
    pub args: ScanArgs,
}

/// Prepares a scan step: parses the filter arguments, then resumes from the
/// progress registered under the cursor's token, falling back to fresh
/// progress when the token is unknown or expired (a tolerated recovery path,
/// not an error). A filter failure is reported without touching the
/// registry.
pub fn prepare_cluster_scan(
    registry: &ScanRegistry,
    cursor: &ClusterScanCursor,
    args: &Vec<Vec<u8>>,
) -> (r: Result<ScanPlan, ScanParseError>)
    requires
        registry.wf(),
        args@.len() > 0 ==> !is_scan_keyword(byte_rows(args@)[args@.len() - 1]),
    ensures
        r is Ok <==> (count_valid(byte_rows(args@)) && type_valid(byte_rows(args@))),
        r matches Ok(plan) ==> {
            &&& opt_bytes_view(plan.args.match_pattern) == effective_filter(
                kw_value(byte_rows(args@), match_kw()),
            )
            &&& opt_bytes_view(plan.args.object_type) == effective_filter(
                kw_value(byte_rows(args@), type_kw()),
            )
            &&& plan.args.count == effective_count(byte_rows(args@))
            &&& registry.contains_token(cursor.token_spec()) ==> registry.has_entry(
                cursor.token_spec(),
                plan.state,
            )
        },
        r matches Err(e) ==> (e is InvalidCount <==> !count_valid(byte_rows(args@))),
{
    let scan_args = match parse_cluster_scan_args(args) {
        Ok(sa) => sa,
        Err(e) => {
            return Err(e);
        },
    };
    let state = scan_state_for(registry, cursor.get_cursor());
    Ok(ScanPlan { state, args: scan_args })
}

} // verus!
