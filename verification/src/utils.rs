//! Helpers of the acquire pipeline: query parameters, the size a download
//! will have, whether to resume it, digests as lowercase hex, and the
//! flattening of an unpacked archive.

use crate::list::{entries_of, Entry, EntryView};
use crate::text::{chars_of, head_before, index_of_char, position_of, slice_chars, string_of};
use vstd::prelude::*;
use vstd::string::StringExecFns;

verus! {

/// An ordered list of query parameters. A key may occur more than once.
#[derive(Debug, Clone)]
pub struct UrlParams {
    pub params: Vec<(String, String)>,
}

impl View for UrlParams {
    type V = Seq<(Seq<char>, Seq<char>)>;

    open spec fn view(&self) -> Seq<(Seq<char>, Seq<char>)> {
        self.params@.map_values(|p: (String, String)| (p.0@, p.1@))
    }
}

impl Default for UrlParams {
    fn default() -> (params: Self)
        ensures
            params@ == Seq::<(Seq<char>, Seq<char>)>::empty(),
    {
        UrlParams::new()
    }
}

/// The pairs made of `key` and each of the values, in order.
pub open spec fn keyed(key: Seq<char>, values: Seq<&str>) -> Seq<(Seq<char>, Seq<char>)> {
    values.map_values(|v: &str| (key, v@))
}

impl UrlParams {
    /// An empty list of parameters.
    pub fn new() -> (params: Self)
        ensures
            params@ == Seq::<(Seq<char>, Seq<char>)>::empty(),
    {
        let params = Self { params: Vec::new() };
        assert(params@ =~= Seq::<(Seq<char>, Seq<char>)>::empty());
        params
    }

    /// Adds one pair at the end.
    pub fn add(&mut self, key: &str, value: &str)
        ensures
            final(self)@ == old(self)@.push((key@, value@)),
    {
        self.params.push((key.to_owned(), value.to_owned()));
        assert(self@ =~= old(self)@.push((key@, value@)));
    }

    /// Adds one pair for each of the values, all under `key`.
    pub fn add_iterable(&mut self, iterable: &[&str], key: &str)
        ensures
            final(self)@ == old(self)@ + keyed(key@, iterable@),
    {
        let mut i: usize = 0;
        assert(self@ =~= old(self)@ + keyed(key@, iterable@.take(0)));
        while i < iterable.len()
            invariant
                i <= iterable.len(),
                self@ == old(self)@ + keyed(key@, iterable@.take(i as int)),
            decreases iterable.len() - i,
        {
            let ghost before = self@;
            self.add(key, iterable[i]);
            assert(keyed(key@, iterable@.take(i + 1)) =~= keyed(key@, iterable@.take(i as int)).push(
                (key@, iterable[i as int]@),
            ));
            assert(self@ =~= old(self)@ + keyed(key@, iterable@.take(i + 1)));
            i += 1;
        }
        assert(iterable@.take(iterable.len() as int) =~= iterable@);
    }

    /// Adds a pair where there is a value.
    pub fn add_optional(&mut self, key: &str, value: Option<&str>)
        ensures
            final(self)@ == match value {
                Some(v) => old(self)@.push((key@, v@)),
                None => old(self)@,
            },
    {
        match value {
            Some(v) => self.add(key, v),
            None => {},
        }
    }

    /// The number of pairs.
    pub fn len(&self) -> (n: usize)
        ensures
            n == self@.len(),
    {
        self.params.len()
    }

    /// Whether there is no pair.
    pub fn is_empty(&self) -> (empty: bool)
        ensures
            empty == (self@.len() == 0),
    {
        self.params.len() == 0
    }
}

/// Whether a character is a decimal digit.
pub open spec fn is_digit(c: char) -> bool {
    '0' <= c <= '9'
}

/// The number that a run of decimal digits writes.
pub open spec fn digits_value(s: Seq<char>) -> nat
    decreases s.len(),
{
    if s.len() == 0 {
        0
    } else {
        (digits_value(s.drop_last()) * 10 + (s.last() as int - '0' as int)) as nat
    }
}

/// Whether every character is a decimal digit.
pub open spec fn all_digits(s: Seq<char>) -> bool {
    forall|i: int| 0 <= i < s.len() ==> is_digit(#[trigger] s[i])
}

/// A text without the plus sign that may stand in front.
pub open spec fn unsigned_part(s: Seq<char>) -> Seq<char> {
    if s.len() > 0 && s[0] == '+' {
        s.skip(1)
    } else {
        s
    }
}

/// The unsigned 64-bit number that a text writes: decimal digits, at least
/// one, with an optional plus sign in front, and a value that fits.
pub open spec fn decimal_u64(s: Seq<char>) -> Option<u64> {
    let body = unsigned_part(s);
    if body.len() > 0 && all_digits(body) && digits_value(body) <= u64::MAX {
        Some(digits_value(body) as u64)
    } else {
        None
    }
}

/// A run of digits writes no less than any of its beginnings.
pub proof fn lemma_digits_value_grows(s: Seq<char>, n: int)
    requires
        0 <= n <= s.len(),
        all_digits(s),
    ensures
        digits_value(s.take(n)) <= digits_value(s),
    decreases s.len() - n,
{
    if n < s.len() {
        lemma_digits_value_grows(s, n + 1);
        let longer = s.take(n + 1);
        assert(longer.drop_last() =~= s.take(n));
        assert(is_digit(s[n]));
        assert(longer.last() == s[n]);
    } else {
        assert(s.take(n) =~= s);
    }
}

/// The unsigned 64-bit number that a text writes.
pub fn parse_u64(text: &str) -> (number: Option<u64>)
    ensures
        number == decimal_u64(text@),
{
    let s = chars_of(text);
    let start: usize = if s.len() > 0 && s[0] == '+' {
        1
    } else {
        0
    };
    let ghost body = s@.skip(start as int);
    assert(body =~= unsigned_part(text@));
    if start == s.len() {
        return None;
    }
    let mut acc: u64 = 0;
    let mut i: usize = start;
    assert(body.take(0) =~= Seq::<char>::empty());
    while i < s.len()
        invariant
            start <= i <= s.len(),
            start < s.len(),
            s@ == text@,
            body == unsigned_part(text@),
            body == s@.skip(start as int),
            acc == digits_value(body.take(i - start)),
            forall|k: int| 0 <= k < i - start ==> is_digit(#[trigger] body[k]),
        decreases s.len() - i,
    {
        let c = s[i];
        assert(body[i - start] == c);
        if !('0' <= c && c <= '9') {
            assert(!is_digit(body[i - start]));
            return None;
        }
        let d: u64 = (c as u32 - '0' as u32) as u64;
        proof {
            let longer = body.take(i - start + 1);
            assert(longer.drop_last() =~= body.take(i - start));
            assert(longer.last() == c);
        }
        if acc > (u64::MAX - d) / 10 {
            proof {
                if all_digits(body) {
                    lemma_digits_value_grows(body, i - start + 1);
                    assert(digits_value(body.take(i - start + 1)) == acc * 10 + d);
                }
            }
            return None;
        }
        acc = acc * 10 + d;
        i += 1;
    }
    proof {
        assert(body.take(s.len() - start) =~= body);
    }
    Some(acc)
}

/// The ten decimal digits.
pub open spec fn decimal_digits() -> Seq<char> {
    seq!['0', '1', '2', '3', '4', '5', '6', '7', '8', '9']
}

/// A number written in decimal digits, without leading zeros.
pub open spec fn digits_of(n: nat) -> Seq<char>
    decreases n,
{
    if n < 10 {
        seq![decimal_digits()[n as int]]
    } else {
        digits_of(n / 10).push(decimal_digits()[(n % 10) as int])
    }
}

/// What is written for a number reads as that number.
pub proof fn lemma_decimal_round_trip(n: nat)
    ensures
        digits_of(n).len() > 0,
        all_digits(digits_of(n)),
        digits_value(digits_of(n)) == n,
        n <= u64::MAX ==> decimal_u64(digits_of(n)) == Some(n as u64),
    decreases n,
{
    let text = digits_of(n);
    if n < 10 {
        assert(text.drop_last() =~= Seq::<char>::empty());
        assert(digits_value(text.drop_last()) == 0);
        assert(text.last() == decimal_digits()[n as int]);
    } else {
        lemma_decimal_round_trip(n / 10);
        assert(text.drop_last() =~= digits_of(n / 10));
        assert(text.last() == decimal_digits()[(n % 10) as int]);
        assert forall|i: int| 0 <= i < text.len() implies is_digit(#[trigger] text[i]) by {
            if i < text.len() - 1 {
                assert(text[i] == digits_of(n / 10)[i]);
            }
        }
    }
    assert(is_digit(text[0]));
    assert(unsigned_part(text) == text);
}

/// The number written in decimal digits.
pub fn decimal(n: u64) -> (text: String)
    ensures
        text@ == digits_of(n as nat),
{
    let digits: [char; 10] = ['0', '1', '2', '3', '4', '5', '6', '7', '8', '9'];
    assert(digits@ =~= decimal_digits());
    let mut low_first: Vec<char> = Vec::new();
    let mut rest: u64 = n;
    assert(digits_of(rest as nat) + low_first@.reverse() =~= digits_of(n as nat));
    while rest >= 10
        invariant
            digits@ == decimal_digits(),
            digits_of(n as nat) == digits_of(rest as nat) + low_first@.reverse(),
        decreases rest,
    {
        let ghost before = low_first@;
        let d: usize = (rest % 10) as usize;
        low_first.push(digits[d]);
        assert(low_first@.reverse() =~= seq![digits@[d as int]] + before.reverse());
        assert(digits_of(rest as nat) == digits_of((rest / 10) as nat).push(digits@[d as int]));
        assert(digits_of((rest / 10) as nat).push(digits@[d as int]) + before.reverse()
            =~= digits_of((rest / 10) as nat) + low_first@.reverse());
        rest = rest / 10;
    }
    let ghost before = low_first@;
    low_first.push(digits[rest as usize]);
    assert(low_first@.reverse() =~= digits_of(rest as nat) + before.reverse());
    let mut out: Vec<char> = Vec::new();
    let mut i: usize = low_first.len();
    while i > 0
        invariant
            i <= low_first.len(),
            out@ == low_first@.reverse().take(low_first.len() - i),
        decreases i,
    {
        i -= 1;
        out.push(low_first[i]);
        assert(out@ =~= low_first@.reverse().take(low_first.len() - i));
    }
    assert(out@ =~= low_first@.reverse());
    string_of(&out)
}

/// The part of a `Content-Range` value behind its first slash, up to the
/// next slash or the end: the total size.
pub open spec fn range_total(range: Seq<char>) -> Option<Seq<char>> {
    let at = index_of_char(range, '/') as int;
    if at < range.len() {
        Some(head_before(range.skip(at + 1), '/'))
    } else {
        None
    }
}

/// The number a header writes, or zero where it is missing or writes none.
pub open spec fn length_or_zero(content_length: Option<Seq<char>>) -> u64 {
    match content_length {
        Some(t) => match decimal_u64(t) {
            Some(n) => n,
            None => 0,
        },
        None => 0,
    }
}

/// The total the range header gives, where there is one and it writes a
/// number.
pub open spec fn stated_total(content_range: Option<Seq<char>>) -> Option<u64> {
    match content_range {
        Some(r) => match range_total(r) {
            Some(t) => decimal_u64(t),
            None => None,
        },
        None => None,
    }
}

/// The size the whole remote file has, from the headers of a response to a
/// request that began at `start_pos`. An unranged request has the content
/// length. A ranged request has the total that the range header states, or
/// else the content length and the start together; there is no size where
/// that sum does not fit.
pub open spec fn total_size(
    content_length: Option<Seq<char>>,
    content_range: Option<Seq<char>>,
    start_pos: u64,
) -> Option<u64> {
    let length = length_or_zero(content_length);
    if start_pos == 0 {
        Some(length)
    } else {
        match stated_total(content_range) {
            Some(total) => Some(total),
            None => if length + start_pos <= u64::MAX {
                Some((length + start_pos) as u64)
            } else {
                None
            },
        }
    }
}

/// What a text holds, where there is one.
pub open spec fn option_view(text: Option<&str>) -> Option<Seq<char>> {
    match text {
        Some(t) => Some(t@),
        None => None,
    }
}

/// The total behind the slash of a `Content-Range` value.
fn total_of_range(range: &str) -> (total: Option<u64>)
    ensures
        total == stated_total(Some(range@)),
{
    let r = chars_of(range);
    let at = position_of(&r, '/');
    if at < r.len() {
        let rest = slice_chars(&r, at + 1, r.len());
        assert(rest@ =~= range@.skip(at + 1));
        let end = position_of(&rest, '/');
        let piece = slice_chars(&rest, 0, end);
        let piece_text = crate::text::string_of(&piece);
        parse_u64(piece_text.as_str())
    } else {
        None
    }
}

/// The size the whole remote file has: see `total_size`.
pub fn get_remote_file_size(
    content_length: Option<&str>,
    content_range: Option<&str>,
    start_pos: u64,
) -> (size: Option<u64>)
    ensures
        size == total_size(option_view(content_length), option_view(content_range), start_pos),
{
    let length: u64 = match content_length {
        Some(t) => match parse_u64(t) {
            Some(n) => n,
            None => 0,
        },
        None => 0,
    };
    if start_pos == 0 {
        return Some(length);
    }
    let stated = match content_range {
        Some(r) => total_of_range(r),
        None => None,
    };
    match stated {
        Some(total) => Some(total),
        None => length.checked_add(start_pos),
    }
}

/// What to do about a download, given what is on disk and what is remote.
#[derive(Debug, Clone, Copy, PartialEq, Eq, Structural)]
pub enum DownloadPlan {
    /// The file is there in full: nothing is requested.
    Complete,
    /// Part of the file is there: the rest is requested and appended.
    Resume { from: u64 },
    /// Nothing is there: the whole file is requested and written afresh.
    Fresh,
}

/// A download counts as complete only where the local byte count equals a
/// remote total that is not zero.
pub open spec fn is_complete(local_len: u64, total: u64) -> bool {
    local_len == total && total > 0
}

/// The plan for a download.
pub open spec fn planned(local_len: u64, total: u64) -> DownloadPlan {
    if is_complete(local_len, total) {
        DownloadPlan::Complete
    } else if local_len > 0 {
        DownloadPlan::Resume { from: local_len }
    } else {
        DownloadPlan::Fresh
    }
}

/// The plan for a download, from the length of the local file, zero where
/// there is none, and the size of the remote file.
pub fn plan_download(local_len: u64, total: u64) -> (plan: DownloadPlan)
    ensures
        plan == planned(local_len, total),
{
    if local_len == total && total > 0 {
        DownloadPlan::Complete
    } else if local_len > 0 {
        DownloadPlan::Resume { from: local_len }
    } else {
        DownloadPlan::Fresh
    }
}

/// The value of the `Range` header that asks for the bytes from `from` on.
pub open spec fn range_from(from: u64) -> Seq<char> {
    "bytes="@ + digits_of(from as nat) + "-"@
}

/// The `Range` header of the request that a plan calls for: a plan to
/// resume asks for the bytes behind those that are there, and a fresh
/// download asks for all, without the header.
pub open spec fn range_for(plan: DownloadPlan) -> Option<Seq<char>> {
    match plan {
        DownloadPlan::Resume { from } => Some(range_from(from)),
        _ => None,
    }
}

/// The value of the `Range` header that asks for the bytes from `from` on.
pub fn range_header(from: u64) -> (value: String)
    ensures
        value@ == range_from(from),
{
    let mut value = "bytes=".to_owned();
    let number = decimal(from);
    value.append(number.as_str());
    value.append("-");
    value
}

/// The `Range` header of the request that a plan calls for.
pub fn range_of(plan: DownloadPlan) -> (value: Option<String>)
    ensures
        match value {
            Some(v) => range_for(plan) == Some(v@),
            None => range_for(plan) is None,
        },
{
    match plan {
        DownloadPlan::Resume { from } => Some(range_header(from)),
        _ => None,
    }
}

/// The local file after the plan was carried out and `body` was received.
pub open spec fn file_after(local: Seq<u8>, plan: DownloadPlan, body: Seq<u8>) -> Seq<u8> {
    match plan {
        DownloadPlan::Complete => local,
        DownloadPlan::Resume { from } => local + body,
        DownloadPlan::Fresh => body,
    }
}

/// What a server sends of a resource for a plan: nothing, the bytes from
/// the offset on, or all of it.
pub open spec fn body_for(resource: Seq<u8>, plan: DownloadPlan) -> Seq<u8> {
    match plan {
        DownloadPlan::Complete => Seq::empty(),
        DownloadPlan::Resume { from } => resource.skip(from as int),
        DownloadPlan::Fresh => resource,
    }
}

/// The local file after the plan was carried out and `body` was received.
pub fn received(local: Vec<u8>, plan: DownloadPlan, body: &[u8]) -> (file: Vec<u8>)
    ensures
        file@ == file_after(local@, plan, body@),
{
    let mut file = match plan {
        DownloadPlan::Complete => {
            return local;
        },
        DownloadPlan::Resume { from } => local,
        DownloadPlan::Fresh => Vec::new(),
    };
    let ghost start = file@;
    let mut i: usize = 0;
    while i < body.len()
        invariant
            i <= body.len(),
            file@ == start + body@.take(i as int),
        decreases body.len() - i,
    {
        file.push(body[i]);
        assert(body@.take(i + 1) =~= body@.take(i as int).push(body@[i as int]));
        i += 1;
    }
    assert(body@.take(body.len() as int) =~= body@);
    file
}

/// A download that was cut off after any number of bytes and then taken up
/// again ends with the same file as a download in one go: the resource.
pub proof fn lemma_resume_gives_the_resource(resource: Seq<u8>, kept: u64)
    requires
        kept <= resource.len() <= u64::MAX,
    ensures
        ({
            let total = resource.len() as u64;
            let again = planned(kept, total);
            let at_once = planned(0, total);
            &&& file_after(resource.take(kept as int), again, body_for(resource, again))
                == resource
            &&& file_after(Seq::empty(), at_once, body_for(resource, at_once)) == resource
        }),
{
    let total = resource.len() as u64;
    let again = planned(kept, total);
    assert(resource.take(kept as int) + resource.skip(kept as int) =~= resource);
    assert(resource.take(resource.len() as int) =~= resource);
    if total == 0 {
        assert(resource =~= Seq::<u8>::empty());
    }
}

/// The sixteen hexadecimal digits, in lower case.
pub open spec fn hex_digits() -> Seq<char> {
    seq!['0', '1', '2', '3', '4', '5', '6', '7', '8', '9', 'a', 'b', 'c', 'd', 'e', 'f']
}

/// The bytes written as lowercase hexadecimal, two digits each.
pub open spec fn hex_of(bytes: Seq<u8>) -> Seq<char> {
    Seq::new(
        2 * bytes.len(),
        |i: int|
            if i % 2 == 0 {
                hex_digits()[bytes[i / 2] as int / 16]
            } else {
                hex_digits()[bytes[i / 2] as int % 16]
            },
    )
}

/// The bytes written as lowercase hexadecimal, two digits each.
pub fn to_hex(bytes: &[u8]) -> (text: String)
    ensures
        text@ == hex_of(bytes@),
{
    let digits: [char; 16] = [
        '0',
        '1',
        '2',
        '3',
        '4',
        '5',
        '6',
        '7',
        '8',
        '9',
        'a',
        'b',
        'c',
        'd',
        'e',
        'f',
    ];
    assert(digits@ =~= hex_digits());
    let mut text = String::new();
    let mut i: usize = 0;
    while i < bytes.len()
        invariant
            i <= bytes.len(),
            digits@ == hex_digits(),
            text@ == hex_of(bytes@.take(i as int)),
        decreases bytes.len() - i,
    {
        let b = bytes[i];
        let ghost before = text@;
        text.push(digits[(b / 16) as usize]);
        text.push(digits[(b % 16) as usize]);
        proof {
            let longer = bytes@.take(i + 1);
            assert(text@ =~= hex_of(longer)) by {
                assert(text@.len() == 2 * longer.len());
                assert forall|k: int| 0 <= k < text@.len() implies text@[k] == hex_of(longer)[k] by {
                    if k < 2 * i {
                        assert(text@[k] == before[k]);
                        assert(bytes@.take(i as int)[k / 2] == longer[k / 2]);
                    }
                }
            }
        }
        i += 1;
    }
    assert(bytes@.take(bytes.len() as int) =~= bytes@);
    text
}

/// The SHA-256 digest of a sequence of bytes, as `ring` computes it.
pub uninterp spec fn sha256_of(data: Seq<u8>) -> Seq<u8>;

/// The SHA-512 digest of a sequence of bytes, as `ring` computes it.
pub uninterp spec fn sha512_of(data: Seq<u8>) -> Seq<u8>;

/// The most bytes `ring` takes in one digest: a length whose count of bits
/// still fits 64 bits.
pub open spec fn digest_limit() -> int {
    0x2000_0000_0000_0000
}

/// Calls `ring::digest::digest` with `SHA256`. The result is the digest of
/// the data, a function of the data alone, 32 bytes long. `ring` refuses
/// data whose length in bits does not fit 64 bits.
#[verifier::external_body]
fn sha256_digest(data: &[u8]) -> (digest: Vec<u8>)
    requires
        data@.len() < digest_limit(),
    ensures
        digest@ == sha256_of(data@),
        digest@.len() == 32,
{
    ring::digest::digest(&ring::digest::SHA256, data).as_ref().to_vec()
}

/// Calls `ring::digest::digest` with `SHA512`. The result is the digest of
/// the data, a function of the data alone, 64 bytes long. `ring` refuses
/// data whose length in bits does not fit 64 bits.
#[verifier::external_body]
fn sha512_digest(data: &[u8]) -> (digest: Vec<u8>)
    requires
        data@.len() < digest_limit(),
    ensures
        digest@ == sha512_of(data@),
        digest@.len() == 64,
{
    ring::digest::digest(&ring::digest::SHA512, data).as_ref().to_vec()
}

/// The SHA-256 digest of the data in lowercase hexadecimal.
pub fn sha256sum(data: &[u8]) -> (text: String)
    requires
        data@.len() < digest_limit(),
    ensures
        text@ == hex_of(sha256_of(data@)),
        text@.len() == 64,
{
    let digest = sha256_digest(data);
    to_hex(digest.as_slice())
}

/// The SHA-512 digest of the data in lowercase hexadecimal.
pub fn sha512sum(data: &[u8]) -> (text: String)
    requires
        data@.len() < digest_limit(),
    ensures
        text@ == hex_of(sha512_of(data@)),
        text@.len() == 128,
{
    let digest = sha512_digest(data);
    to_hex(digest.as_slice())
}

/// Whether an entry of that name is visible: its name does not begin with
/// a dot.
pub open spec fn is_visible(name: Seq<char>) -> bool {
    !(name.len() > 0 && name[0] == '.')
}

/// Whether the entry at `i` is the one visible entry, and a directory.
pub open spec fn wrapper_at(entries: Seq<EntryView>, i: int) -> bool {
    &&& 0 <= i < entries.len()
    &&& is_visible(entries[i].name)
    &&& entries[i].is_dir
    &&& forall|j: int| 0 <= j < entries.len() && j != i ==> !is_visible(#[trigger] entries[j].name)
}

/// Whether the entry at `i` is the one directory.
pub open spec fn sole_directory_at(entries: Seq<EntryView>, i: int) -> bool {
    &&& 0 <= i < entries.len()
    &&& entries[i].is_dir
    &&& forall|j: int| 0 <= j < entries.len() && j != i ==> !(#[trigger] entries[j]).is_dir
}

/// What a directory lists after the entry at `wrapper` was flattened: the
/// other entries, and then what the wrapper held.
pub open spec fn flat(entries: Seq<EntryView>, wrapper: int, inner: Seq<EntryView>) -> Seq<
    EntryView,
> {
    entries.remove(wrapper) + inner
}

/// Where all that was unpacked is one visible directory, that directory is
/// the wrapper, and after flattening the target lists what the wrapper
/// held, directly: the same as if there had been no wrapper.
pub proof fn lemma_sole_wrapper_flattens(name: Seq<char>, inner: Seq<EntryView>)
    requires
        is_visible(name),
    ensures
        wrapper_at(seq![EntryView { name, is_dir: true }], 0),
        flat(seq![EntryView { name, is_dir: true }], 0, inner) == inner,
{
    let unpacked = seq![EntryView { name, is_dir: true }];
    assert(unpacked.remove(0) + inner =~= inner);
}

/// At most one entry is the wrapper.
pub proof fn lemma_wrapper_is_unique(entries: Seq<EntryView>, i: int, j: int)
    requires
        wrapper_at(entries, i),
        wrapper_at(entries, j),
    ensures
        i == j,
{
}

/// Whether an entry of that name is visible.
fn visible(name: &str) -> (shown: bool)
    ensures
        shown == is_visible(name@),
{
    let n = chars_of(name);
    !(n.len() > 0 && n[0] == '.')
}

/// Which entry of an unpacked archive is to be flattened: where exactly one
/// entry is visible and that entry is a directory, what it holds is moved
/// up and the directory removed. Otherwise nothing is to be done.
pub fn promote_if_single_subdir(entries: &Vec<Entry>) -> (wrapper: Option<usize>)
    ensures
        match wrapper {
            Some(i) => wrapper_at(entries_of(entries@), i as int),
            None => forall|i: int| !wrapper_at(entries_of(entries@), i),
        },
{
    let ghost all = entries_of(entries@);
    let mut found: Option<usize> = None;
    let mut i: usize = 0;
    while i < entries.len()
        invariant
            i <= entries.len(),
            all == entries_of(entries@),
            match found {
                Some(at) => at < i && is_visible(all[at as int].name) && forall|j: int|
                    0 <= j < i && j != at ==> !is_visible(#[trigger] all[j].name),
                None => forall|j: int| 0 <= j < i ==> !is_visible(#[trigger] all[j].name),
            },
        decreases entries.len() - i,
    {
        if visible(entries[i].name.as_str()) {
            match found {
                Some(at) => {
                    assert forall|k: int| !wrapper_at(all, k) by {
                        if wrapper_at(all, k) {
                            if k == at as int {
                                assert(!is_visible(all[i as int].name));
                            } else {
                                assert(!is_visible(all[at as int].name));
                            }
                        }
                    }
                    return None;
                },
                None => {
                    found = Some(i);
                },
            }
        }
        i += 1;
    }
    match found {
        Some(at) => {
            if entries[at].is_dir {
                Some(at)
            } else {
                assert forall|k: int| !wrapper_at(all, k) by {
                    if wrapper_at(all, k) && k != at as int {
                        assert(!is_visible(all[at as int].name));
                    }
                }
                None
            }
        },
        None => None,
    }
}

/// Which entry is to be flattened where hidden entries count as well:
/// the one directory, where there is exactly one.
pub fn move_and_clean_subfolder(entries: &Vec<Entry>) -> (folder: Option<usize>)
    ensures
        match folder {
            Some(i) => sole_directory_at(entries_of(entries@), i as int),
            None => forall|i: int| !sole_directory_at(entries_of(entries@), i),
        },
{
    let ghost all = entries_of(entries@);
    let mut found: Option<usize> = None;
    let mut i: usize = 0;
    while i < entries.len()
        invariant
            i <= entries.len(),
            all == entries_of(entries@),
            match found {
                Some(at) => at < i && all[at as int].is_dir && forall|j: int|
                    0 <= j < i && j != at ==> !(#[trigger] all[j]).is_dir,
                None => forall|j: int| 0 <= j < i ==> !(#[trigger] all[j]).is_dir,
            },
        decreases entries.len() - i,
    {
        if entries[i].is_dir {
            match found {
                Some(at) => {
                    assert forall|k: int| !sole_directory_at(all, k) by {
                        if sole_directory_at(all, k) {
                            if k == at as int {
                                assert(!all[i as int].is_dir);
                            } else {
                                assert(!all[at as int].is_dir);
                            }
                        }
                    }
                    return None;
                },
                None => {
                    found = Some(i);
                },
            }
        }
        i += 1;
    }
    found
}

/// What a directory holds after the entry at `wrapper` was flattened: the
/// other entries, and then what the wrapper held.
pub fn flattened(entries: &Vec<Entry>, wrapper: usize, inner: &Vec<Entry>) -> (out: Vec<Entry>)
    requires
        wrapper < entries.len(),
    ensures
        entries_of(out@) == flat(entries_of(entries@), wrapper as int, entries_of(inner@)),
{
    let mut out: Vec<Entry> = Vec::new();
    let mut i: usize = 0;
    while i < entries.len()
        invariant
            i <= entries.len(),
            wrapper < entries.len(),
            out.len() == (if i <= wrapper { i as int } else { i - 1 }),
            forall|k: int| 0 <= k < out.len() ==> (#[trigger] out[k])@ == (if k < wrapper {
                entries[k]@
            } else {
                entries[k + 1]@
            }),
        decreases entries.len() - i,
    {
        if i != wrapper {
            out.push(Entry { name: entries[i].name.clone(), is_dir: entries[i].is_dir });
        }
        i += 1;
    }
    let ghost kept = entries_of(out@);
    assert(kept =~= entries_of(entries@).remove(wrapper as int));
    let mut j: usize = 0;
    while j < inner.len()
        invariant
            j <= inner.len(),
            entries_of(out@) == kept + entries_of(inner@).take(j as int),
        decreases inner.len() - j,
    {
        let ghost before = entries_of(out@);
        out.push(Entry { name: inner[j].name.clone(), is_dir: inner[j].is_dir });
        assert(entries_of(out@) =~= before.push(inner[j as int]@));
        assert(entries_of(inner@).take(j + 1) =~= entries_of(inner@).take(j as int).push(
            inner[j as int]@,
        ));
        j += 1;
    }
    assert(entries_of(inner@).take(inner.len() as int) =~= entries_of(inner@));
    out
}

} // verus!
