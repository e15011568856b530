//! File paths: byte sequences whose names are separated by `/`.
//!
//! A path of Windows, which may begin with a drive or a share and whose names are separated by `/`
//! and `\`, is told from others by a mark in front: the byte zero, which no path holds.
//! `FilePath::on` puts it there. The environment and the operations do so themselves with what they
//! are given.
use vstd::prelude::*;
use vstd::std_specs::cmp::PartialEqSpecImpl;

use crate::environment::Platform;
use crate::text;

verus! {

pub const SLASH: u8 = 47;

pub const DOT: u8 = 46;

pub const BACKSLASH: u8 = 92;

/// What tells a path of Windows from others.
pub const MARK: u8 = 0;

pub const COLON: u8 = 58;

/// Where the names of a path begin: behind the root, or behind a leading `.`.
pub open spec fn body_start(b: Seq<u8>) -> int {
    if b.len() > 0 && b[0] == SLASH {
        1
    } else if b.len() > 0 && b[0] == DOT && (b.len() == 1 || b[1] == SLASH) {
        1
    } else {
        0
    }
}

/// The first position at or after `from` that holds a separator, or the length.
pub open spec fn slash_from(b: Seq<u8>, from: int) -> int
    decreases b.len() - from,
{
    if from < 0 || from >= b.len() {
        b.len() as int
    } else if b[from] == SLASH {
        from
    } else {
        slash_from(b, from + 1)
    }
}

/// Where the last segment of a path begins that reaches from `from` up to `to`.
pub open spec fn segment_start(b: Seq<u8>, from: int, to: int) -> int
    decreases to - from,
{
    if to <= from || to > b.len() || from < 0 {
        from
    } else if b[to - 1] == SLASH {
        to
    } else {
        segment_start(b, from, to - 1)
    }
}

/// A segment that names nothing: an empty one, or a `.`.
pub open spec fn is_filler(segment: Seq<u8>) -> bool {
    segment.len() == 0 || segment == seq![DOT]
}

/// The names from position `from` on.
pub open spec fn names_from(b: Seq<u8>, from: int) -> Seq<Seq<u8>>
    decreases b.len() - from,
{
    if from < 0 || from >= b.len() {
        Seq::empty()
    } else {
        let end = slash_from(b, from);
        let segment = b.subrange(from, end);
        let rest = if from <= end < b.len() {
            names_from(b, end + 1)
        } else {
            Seq::empty()
        };
        if is_filler(segment) {
            rest
        } else {
            seq![segment] + rest
        }
    }
}

/// The components of a path without a drive: the root or a leading `.` where there is one, then
/// the names. Repeated separators, a trailing one and every further `.` count for nothing.
pub open spec fn plain_components(b: Seq<u8>) -> Seq<Seq<u8>> {
    if body_start(b) == 1 {
        seq![b.take(1)] + names_from(b, 1)
    } else {
        names_from(b, 0)
    }
}

/// Whether a path begins at the one root that there is without drives.
pub open spec fn is_rooted(b: Seq<u8>) -> bool {
    b.len() > 0 && b[0] == SLASH
}

/// The last segment of a path, and what stands before it and its separator.
pub open spec fn last_segment(b: Seq<u8>) -> Seq<u8> {
    b.skip(segment_start(b, body_start(b), b.len() as int))
}

pub open spec fn before_last_segment(b: Seq<u8>) -> Seq<u8> {
    let start = segment_start(b, body_start(b), b.len() as int);
    if start > body_start(b) {
        b.take(start - 1)
    } else {
        b.take(body_start(b))
    }
}

/// A path without the separators and the `.` segments at its end.
pub open spec fn trim_tail(b: Seq<u8>) -> Seq<u8>
    decreases b.len(),
{
    if b.len() > body_start(b) && is_filler(last_segment(b)) && before_last_segment(b).len()
        < b.len() {
        trim_tail(before_last_segment(b))
    } else {
        b
    }
}

/// A path without a drive and without its last component; there is none for the root and for the
/// empty path.
pub open spec fn plain_parent(b: Seq<u8>) -> Option<Seq<u8>> {
    let t = trim_tail(b);
    if t.len() > body_start(t) {
        Some(trim_tail(before_last_segment(t)))
    } else if t.len() > 0 && t[0] == DOT {
        Some(Seq::empty())
    } else {
        None
    }
}

/// The last component of a path without a drive, where it is a name.
pub open spec fn plain_file_name(b: Seq<u8>) -> Option<Seq<u8>> {
    let t = trim_tail(b);
    if t.len() > body_start(t) && last_segment(t) != seq![DOT, DOT] {
        Some(last_segment(t))
    } else {
        None
    }
}

/// Appends a path to another, both without a drive. A path that begins at the root takes the place
/// of what it is appended to.
pub open spec fn plain_join(a: Seq<u8>, b: Seq<u8>) -> Seq<u8> {
    if is_rooted(b) {
        b
    } else if a.len() > 0 && a.last() != SLASH {
        a + seq![SLASH] + b
    } else {
        a + b
    }
}

/// Whether a path is one of Windows.
pub open spec fn is_marked(b: Seq<u8>) -> bool {
    b.len() > 0 && b[0] == MARK
}

/// A path as it is written.
pub open spec fn spelled(b: Seq<u8>) -> Seq<u8> {
    if is_marked(b) {
        b.skip(1)
    } else {
        b
    }
}

/// What is written, as a path of Windows.
pub open spec fn marked(s: Seq<u8>) -> Seq<u8> {
    seq![MARK] + s
}

/// What is written, as a path of the given platform.
pub open spec fn on(platform: Platform, b: Seq<u8>) -> Seq<u8> {
    if platform == Platform::Windows {
        marked(spelled(b))
    } else {
        spelled(b)
    }
}

/// A path that may be given, as one of the given platform.
pub open spec fn opt_on(platform: Platform, path: Option<Seq<u8>>) -> Option<Seq<u8>> {
    match path {
        Some(path) => Some(on(platform, path)),
        None => None,
    }
}

/// A path as text for a message.
pub open spec fn shown(b: Seq<u8>) -> Seq<char> {
    text::lossy_text(spelled(b))
}

/// Whether a byte separates names on Windows.
pub open spec fn is_separator(c: u8) -> bool {
    c == SLASH || c == BACKSLASH
}

/// Whether what is written begins with the letter of a drive and a colon.
pub open spec fn has_drive(s: Seq<u8>) -> bool {
    s.len() >= 2 && (65 <= s[0] <= 90 || 97 <= s[0] <= 122) && s[1] == COLON
}

/// The first position at or after `from` that holds a separator of either kind, or the length.
pub open spec fn separator_from(s: Seq<u8>, from: int) -> int
    decreases s.len() - from,
{
    if from < 0 || from >= s.len() {
        s.len() as int
    } else if is_separator(s[from]) {
        from
    } else {
        separator_from(s, from + 1)
    }
}

/// The length of the drive of `C:\`, or of the share of `\\server\share`, that an absolute path of
/// Windows begins with. Others have the length 0.
pub open spec fn prefix_len(s: Seq<u8>) -> int {
    if has_drive(s) {
        if s.len() > 2 && is_separator(s[2]) {
            2
        } else {
            0
        }
    } else if s.len() > 2 && is_separator(s[0]) && is_separator(s[1]) {
        let server = separator_from(s, 2);
        let share = separator_from(s, server + 1);
        if 2 < server && server + 1 < share {
            share
        } else {
            0
        }
    } else {
        0
    }
}

/// A byte with a slash in the place of a backslash.
pub open spec fn slashed_byte(c: u8) -> u8 {
    if c == BACKSLASH {
        SLASH
    } else {
        c
    }
}

/// Bytes with slashes in the place of backslashes.
pub open spec fn slashed(s: Seq<u8>) -> Seq<u8> {
    s.map_values(|c: u8| slashed_byte(c))
}

/// What stands behind the drive or the share, with slashes. A share is a root by itself.
pub open spec fn tail(s: Seq<u8>) -> Seq<u8> {
    if 0 < prefix_len(s) == s.len() {
        seq![SLASH]
    } else {
        slashed(s.skip(prefix_len(s)))
    }
}

/// The upper case letter of a drive.
pub open spec fn drive_letter(c: u8) -> u8 {
    if 97 <= c <= 122 {
        (c - 32) as u8
    } else {
        c
    }
}

/// The root that a drive or a share stands for. Drives are the same in upper and lower case.
pub open spec fn prefix_root(s: Seq<u8>) -> Seq<u8> {
    if has_drive(s) {
        seq![drive_letter(s[0]), COLON, BACKSLASH]
    } else {
        slashed(s.take(prefix_len(s))).push(SLASH)
    }
}

/// The components of what is written for Windows.
pub open spec fn drive_components(s: Seq<u8>) -> Seq<Seq<u8>> {
    if prefix_len(s) > 0 {
        plain_components(tail(s)).update(0, prefix_root(s))
    } else {
        plain_components(tail(s))
    }
}

/// The components of a path: the root, a drive or share, or a leading `.` where there is one,
/// then the names.
pub open spec fn components(b: Seq<u8>) -> Seq<Seq<u8>> {
    if is_marked(b) {
        drive_components(spelled(b))
    } else {
        plain_components(b)
    }
}

/// Two paths name the same place when their components are the same.
pub open spec fn same_path(a: Seq<u8>, b: Seq<u8>) -> bool {
    components(a) == components(b)
}

/// What of a path is written with slashes from its root on.
pub open spec fn slashed_part(b: Seq<u8>) -> Seq<u8> {
    if is_marked(b) {
        tail(spelled(b))
    } else {
        b
    }
}

/// Whether a path ends in a separator or a `.`, so that only a directory can stand there.
pub open spec fn asks_directory(b: Seq<u8>) -> bool {
    trim_tail(slashed_part(b)).len() < slashed_part(b).len()
}

/// Whether a path ends in a separator behind its root.
pub open spec fn ends_in_separator(b: Seq<u8>) -> bool {
    asks_directory(b) && slashed_part(b).last() == SLASH
}

/// Whether a path begins at a root: on Windows a drive or a share.
pub open spec fn is_anchored(b: Seq<u8>) -> bool {
    if is_marked(b) {
        prefix_len(spelled(b)) > 0
    } else {
        is_rooted(b)
    }
}

/// Whether a path is an absolute one of the given platform.
pub open spec fn is_absolute(platform: Platform, b: Seq<u8>) -> bool {
    is_marked(b) == (platform == Platform::Windows) && is_anchored(b)
}

/// The path without its last component; there is none for a root and for the empty path.
pub open spec fn parent(b: Seq<u8>) -> Option<Seq<u8>> {
    if is_marked(b) {
        match plain_parent(tail(spelled(b))) {
            Some(up) => Some(b.take(1 + prefix_len(spelled(b)) + up.len())),
            None => None,
        }
    } else {
        plain_parent(b)
    }
}

/// The last component, where it is a name.
pub open spec fn file_name(b: Seq<u8>) -> Option<Seq<u8>> {
    plain_file_name(slashed_part(b))
}

/// Appends what is written to what is written, on Windows. What has a drive or a share takes the
/// place of what it is appended to; what begins at the root keeps the drive or the share.
pub open spec fn drive_join(a: Seq<u8>, b: Seq<u8>) -> Seq<u8> {
    if prefix_len(b) > 0 || has_drive(b) {
        b
    } else if b.len() > 0 && is_separator(b[0]) {
        a.take(prefix_len(a)) + b
    } else if a.len() == 0 || is_separator(a.last()) || has_drive(a) && a.len() == 2 {
        a + b
    } else {
        a + seq![BACKSLASH] + b
    }
}

/// Appends what a path is written as to another path.
pub open spec fn join(a: Seq<u8>, b: Seq<u8>) -> Seq<u8> {
    if is_marked(a) {
        marked(drive_join(spelled(a), spelled(b)))
    } else {
        plain_join(a, spelled(b))
    }
}

/// Appends a name that is given as text.
pub open spec fn join_text(a: Seq<u8>, name: Seq<char>) -> Seq<u8> {
    join(a, text::text_bytes(name))
}

/// Whether a file name has the extension `sh`, before which there is at least one byte.
pub open spec fn has_sh_extension(name: Seq<u8>) -> bool {
    name.len() > 3 && name.skip(name.len() - 3) == seq![DOT, 115u8, 104u8]
}

/// The first position at or after `from` where a name begins, or the length.
pub open spec fn next_name(b: Seq<u8>, from: int) -> int
    decreases b.len() - from,
{
    if from < 0 || from >= b.len() {
        b.len() as int
    } else {
        let end = slash_from(b, from);
        if !is_filler(b.subrange(from, end)) {
            from
        } else if from <= end < b.len() {
            next_name(b, end + 1)
        } else {
            b.len() as int
        }
    }
}

/// What stands below a directory of the root with the given name, where the path is there.
pub open spec fn below_root_name(b: Seq<u8>, name: Seq<u8>) -> Option<Seq<u8>> {
    let start = next_name(b, 1);
    let end = slash_from(b, start);
    if is_rooted(b) && start < b.len() && b.subrange(start, end) == name {
        Some(trim_tail(b.skip(next_name(b, end + 1))))
    } else {
        None
    }
}

/// A file path. Two paths are equal when their components are.
#[derive(Debug, Clone)]
pub struct FilePath {
    /// What is written, behind the mark where the path is one of Windows.
    pub bytes: Vec<u8>,
}

impl View for FilePath {
    type V = Seq<u8>;

    open spec fn view(&self) -> Seq<u8> {
        self.bytes@
    }
}

impl PartialEq for FilePath {
    fn eq(&self, other: &FilePath) -> (r: bool) {
        self.same(other)
    }
}

impl PartialEqSpecImpl for FilePath {
    open spec fn obeys_eq_spec() -> bool {
        true
    }

    open spec fn eq_spec(&self, other: &FilePath) -> bool {
        same_path(self@, other@)
    }
}

impl Eq for FilePath {

}

/// The views of a list of byte vectors.
pub open spec fn byte_views(v: Seq<Vec<u8>>) -> Seq<Seq<u8>> {
    v.map_values(|x: Vec<u8>| x@)
}

/// The views of a list of paths.
pub open spec fn path_views(v: Seq<FilePath>) -> Seq<Seq<u8>> {
    v.map_values(|x: FilePath| x@)
}

fn sub_bytes(b: &[u8], from: usize, to: usize) -> (r: Vec<u8>)
    requires
        from <= to <= b@.len(),
    ensures
        r@ == b@.subrange(from as int, to as int),
{
    let mut out: Vec<u8> = Vec::new();
    let mut i: usize = from;
    while i < to
        invariant
            from <= i <= to <= b@.len(),
            out@ == b@.subrange(from as int, i as int),
        decreases to - i,
    {
        out.push(b[i]);
        i += 1;
    }
    out
}

fn body_start_of(b: &[u8]) -> (r: usize)
    ensures
        r == body_start(b@),
        r <= b@.len(),
{
    if b.len() > 0 && b[0] == SLASH {
        1
    } else if b.len() > 0 && b[0] == DOT && (b.len() == 1 || b[1] == SLASH) {
        1
    } else {
        0
    }
}

fn slash_from_of(b: &[u8], from: usize) -> (r: usize)
    requires
        from <= b@.len(),
    ensures
        r == slash_from(b@, from as int),
        from <= r <= b@.len(),
{
    let mut i: usize = from;
    while i < b.len() && b[i] != SLASH
        invariant
            from <= i <= b@.len(),
            slash_from(b@, from as int) == slash_from(b@, i as int),
        decreases b.len() - i,
    {
        i += 1;
    }
    i
}

fn segment_start_of(b: &[u8], from: usize) -> (r: usize)
    requires
        from <= b@.len(),
    ensures
        r == segment_start(b@, from as int, b@.len() as int),
        from <= r <= b@.len(),
{
    let mut i: usize = b.len();
    while i > from && b[i - 1] != SLASH
        invariant
            from <= i <= b@.len(),
            segment_start(b@, from as int, b@.len() as int) == segment_start(
                b@,
                from as int,
                i as int,
            ),
        decreases i,
    {
        i -= 1;
    }
    i
}

fn filler(b: &[u8], from: usize, to: usize) -> (r: bool)
    requires
        from <= to <= b@.len(),
    ensures
        r == is_filler(b@.subrange(from as int, to as int)),
{
    let ghost segment = b@.subrange(from as int, to as int);
    if from == to {
        return true;
    }
    if to - from == 1 && b[from] == DOT {
        assert(segment =~= seq![DOT]);
        return true;
    }
    proof {
        if segment == seq![DOT] {
            assert(segment[0] == DOT);
            assert(segment.len() == 1);
        }
    }
    false
}

/// The length of a path without the separators and the `.` segments at its end.
fn trimmed_len(b: &[u8]) -> (r: usize)
    ensures
        r <= b@.len(),
        b@.take(r as int) == trim_tail(b@),
{
    let mut n: usize = b.len();
    assert(b@.take(n as int) =~= b@);
    loop
        invariant
            n <= b@.len(),
            trim_tail(b@) == trim_tail(b@.take(n as int)),
        ensures
            n <= b@.len(),
            b@.take(n as int) == trim_tail(b@),
        decreases n,
    {
        let t = sub_bytes(b, 0, n);
        assert(t@ =~= b@.take(n as int));
        let low = body_start_of(&t);
        if n <= low {
            break;
        }
        let start = segment_start_of(&t, low);
        proof {
            assert(t@.subrange(start as int, n as int) =~= last_segment(t@));
        }
        if !filler(&t, start, n) {
            break;
        }
        let next: usize = if start > low {
            start - 1
        } else {
            low
        };
        proof {
            assert(before_last_segment(t@) =~= b@.take(next as int));
        }
        n = next;
    }
    n
}

fn separates(c: u8) -> (r: bool)
    ensures
        r == is_separator(c),
{
    c == SLASH || c == BACKSLASH
}

fn has_drive_of(b: &[u8]) -> (r: bool)
    ensures
        r == has_drive(b@),
{
    b.len() >= 2 && ((65 <= b[0] && b[0] <= 90) || (97 <= b[0] && b[0] <= 122)) && b[1] == COLON
}

fn separator_from_of(b: &[u8], from: usize) -> (r: usize)
    requires
        from <= b@.len(),
    ensures
        r == separator_from(b@, from as int),
        from <= r <= b@.len(),
{
    let mut i: usize = from;
    while i < b.len() && !separates(b[i])
        invariant
            from <= i <= b@.len(),
            separator_from(b@, from as int) == separator_from(b@, i as int),
        decreases b.len() - i,
    {
        i += 1;
    }
    i
}

fn prefix_len_of(s: &[u8]) -> (r: usize)
    ensures
        r == prefix_len(s@),
        r <= s@.len(),
{
    if has_drive_of(s) {
        return if s.len() > 2 && separates(s[2]) {
            2
        } else {
            0
        };
    }
    if s.len() > 2 && separates(s[0]) && separates(s[1]) {
        let server = separator_from_of(s, 2);
        if server == s.len() {
            return 0;
        }
        let share = separator_from_of(s, server + 1);
        if 2 < server && server + 1 < share {
            return share;
        }
    }
    0
}

fn slashed_bytes(b: &[u8]) -> (r: Vec<u8>)
    ensures
        r@ == slashed(b@),
{
    let mut out: Vec<u8> = Vec::new();
    let mut i: usize = 0;
    while i < b.len()
        invariant
            i <= b@.len(),
            out@ == slashed(b@.take(i as int)),
        decreases b.len() - i,
    {
        out.push(if b[i] == BACKSLASH {
            SLASH
        } else {
            b[i]
        });
        assert(out@ =~= slashed(b@.take(i + 1)));
        i += 1;
    }
    assert(b@.take(i as int) =~= b@);
    out
}

fn prefix_root_of(b: &[u8], prefix: usize) -> (r: Vec<u8>)
    requires
        prefix == prefix_len(b@),
        prefix <= b@.len(),
    ensures
        r@ == prefix_root(b@),
{
    if has_drive_of(b) {
        let mut out: Vec<u8> = Vec::new();
        out.push(if 97 <= b[0] && b[0] <= 122 {
            b[0] - 32
        } else {
            b[0]
        });
        out.push(COLON);
        out.push(BACKSLASH);
        assert(out@ =~= prefix_root(b@));
        out
    } else {
        let head = sub_bytes(b, 0, prefix);
        assert(head@ =~= b@.take(prefix as int));
        let mut out = slashed_bytes(&head);
        out.push(SLASH);
        out
    }
}

/// The first separator stands where it is found.
pub proof fn lemma_separator_from(b: Seq<u8>, from: int)
    requires
        0 <= from,
    ensures
        from <= b.len() ==> from <= separator_from(b, from) <= b.len(),
        from <= separator_from(b, from) < b.len() ==> is_separator(b[separator_from(b, from)]),
        forall|k: int| from <= k < separator_from(b, from) && k < b.len() ==> !is_separator(
            #[trigger] b[k],
        ),
    decreases b.len() - from,
{
    if from < b.len() && !is_separator(b[from]) {
        lemma_separator_from(b, from + 1);
    }
}

/// What stands behind a drive or a share begins at the root.
pub proof fn lemma_prefix_len(s: Seq<u8>)
    ensures
        0 <= prefix_len(s) <= s.len(),
        0 < prefix_len(s) < s.len() ==> is_separator(s[prefix_len(s)]),
        prefix_len(s) > 0 ==> prefix_len(s) >= 2 && is_rooted(tail(s)),
        0 < prefix_len(s) == s.len() ==> tail(s) == seq![SLASH],
        !(0 < prefix_len(s) == s.len()) ==> tail(s).len() == s.len() - prefix_len(s),
{
    if s.len() > 2 {
        lemma_separator_from(s, 2);
        let server = separator_from(s, 2);
        if server < s.len() {
            lemma_separator_from(s, server + 1);
        }
    }
}

/// What was written for Windows is found again.
pub proof fn lemma_marked(s: Seq<u8>)
    ensures
        is_marked(marked(s)),
        spelled(marked(s)) == s,
{
    assert(marked(s).skip(1) =~= s);
}

/// A path that may be given, as one of the given platform.
pub fn path_on(platform: Platform, path: Option<FilePath>) -> (r: Option<FilePath>)
    ensures
        crate::model::opt_path(r) == opt_on(platform, crate::model::opt_path(path)),
{
    match path {
        Some(path) => Some(path.on(platform)),
        None => None,
    }
}

impl FilePath {
    /// The path that a text spells.
    pub fn from_text(text: &str) -> (r: FilePath)
        ensures
            r@ == text::text_bytes(text@),
    {
        FilePath { bytes: text::bytes_of(text) }
    }

    /// A copy of the path.
    pub fn copy(&self) -> (r: FilePath)
        ensures
            r@ == self@,
    {
        FilePath { bytes: text::copy_bytes(&self.bytes) }
    }

    /// Whether the path is one of Windows.
    fn is_marked(&self) -> (r: bool)
        ensures
            r == is_marked(self@),
    {
        self.bytes.len() > 0 && self.bytes[0] == MARK
    }

    /// The bytes that the path is written with.
    pub fn spelling(&self) -> (r: Vec<u8>)
        ensures
            r@ == spelled(self@),
    {
        let from: usize = if self.is_marked() {
            1
        } else {
            0
        };
        let out = sub_bytes(&self.bytes, from, self.bytes.len());
        assert(out@ =~= spelled(self@));
        out
    }

    /// What is written, as a path of the given platform.
    pub fn on(&self, platform: Platform) -> (r: FilePath)
        ensures
            r@ == on(platform, self@),
    {
        let written = self.spelling();
        match platform {
            Platform::Windows => FilePath::of_windows(&written),
            _ => FilePath { bytes: written },
        }
    }

    fn of_windows(written: &[u8]) -> (r: FilePath)
        ensures
            r@ == marked(written@),
    {
        let mut out: Vec<u8> = Vec::new();
        out.push(MARK);
        let ghost head = out@;
        out.extend_from_slice(written);
        assert(out@ =~= head + written@);
        assert(head =~= seq![MARK]);
        FilePath { bytes: out }
    }

    /// Whether the path starts at the root that there is without drives.
    fn is_rooted(&self) -> (r: bool)
        ensures
            r == is_rooted(self@),
    {
        self.bytes.len() > 0 && self.bytes[0] == SLASH
    }

    /// Whether the path is an absolute one of a platform.
    pub fn is_absolute(&self, platform: Platform) -> (r: bool)
        ensures
            r == is_absolute(platform, self@),
    {
        match platform {
            Platform::Windows => self.is_marked() && prefix_len_of(&self.spelling()) > 0,
            _ => !self.is_marked() && self.is_rooted(),
        }
    }

    /// What of the path is written with slashes from its root on.
    fn slashed_part(&self) -> (r: FilePath)
        ensures
            r@ == slashed_part(self@),
    {
        if !self.is_marked() {
            return self.copy();
        }
        let written = self.spelling();
        let prefix = prefix_len_of(&written);
        if 0 < prefix && prefix == written.len() {
            let mut root: Vec<u8> = Vec::new();
            root.push(SLASH);
            assert(root@ =~= seq![SLASH]);
            return FilePath { bytes: root };
        }
        let rest = sub_bytes(&written, prefix, written.len());
        assert(rest@ =~= written@.skip(prefix as int));
        FilePath { bytes: slashed_bytes(&rest) }
    }

    /// Whether only a directory can stand at the path.
    pub fn asks_directory(&self) -> (r: bool)
        ensures
            r == asks_directory(self@),
    {
        let part = self.slashed_part();
        let len = trimmed_len(&part.bytes);
        assert(trim_tail(part@).len() == len);
        len < part.bytes.len()
    }

    /// Whether the path ends in a separator behind its root.
    pub fn ends_in_separator(&self) -> (r: bool)
        ensures
            r == ends_in_separator(self@),
    {
        let part = self.slashed_part();
        self.asks_directory() && part.bytes[part.bytes.len() - 1] == SLASH
    }

    /// Appends what a path is written as.
    pub fn join_path(&self, other: &FilePath) -> (r: FilePath)
        ensures
            r@ == join(self@, other@),
    {
        let more = other.spelling();
        if !self.is_marked() {
            return self.join_plain(&FilePath { bytes: more });
        }
        let written = self.spelling();
        if prefix_len_of(&more) > 0 || has_drive_of(&more) {
            return FilePath::of_windows(&more);
        }
        let mut out: Vec<u8>;
        if more.len() > 0 && separates(more[0]) {
            let prefix = prefix_len_of(&written);
            out = sub_bytes(&written, 0, prefix);
            assert(out@ =~= written@.take(prefix as int));
        } else {
            let whole = written.len() == 0 || separates(written[written.len() - 1]) || (
            has_drive_of(&written) && written.len() == 2);
            out = written;
            if !whole {
                let ghost before = out@;
                out.push(BACKSLASH);
                assert(out@ =~= before + seq![BACKSLASH]);
            }
        }
        let ghost head = out@;
        out.extend_from_slice(&more);
        assert(out@ =~= head + more@);
        FilePath::of_windows(&out)
    }

    /// Appends a path, where neither has a drive.
    pub(crate) fn join_plain(&self, other: &FilePath) -> (r: FilePath)
        ensures
            r@ == plain_join(self@, other@),
    {
        if other.is_rooted() {
            return other.copy();
        }
        let mut out = text::copy_bytes(&self.bytes);
        if out.len() > 0 && out[out.len() - 1] != SLASH {
            out.push(SLASH);
            assert(out@ =~= self@ + seq![SLASH]);
        }
        let ghost head = out@;
        out.extend_from_slice(&other.bytes);
        assert(out@ =~= head + other@);
        FilePath { bytes: out }
    }

    /// Appends a name.
    pub fn join(&self, name: &str) -> (r: FilePath)
        ensures
            r@ == join_text(self@, name@),
    {
        self.join_path(&FilePath::from_text(name))
    }

    /// The components of the path.
    pub fn components(&self) -> (r: Vec<Vec<u8>>)
        ensures
            byte_views(r@) == components(self@),
    {
        if !self.is_marked() {
            return self.plain_components();
        }
        let mut names = self.slashed_part().plain_components();
        let written = self.spelling();
        let prefix = prefix_len_of(&written);
        if prefix == 0 {
            return names;
        }
        let root = prefix_root_of(&written, prefix);
        proof {
            lemma_prefix_len(written@);
            let t = tail(written@);
            assert(t[0] == SLASH);
            assert(plain_components(t).len() > 0);
            assert(names@.len() == byte_views(names@).len());
        }
        let ghost before = names@;
        names.set(0, root);
        assert(byte_views(names@) =~= byte_views(before).update(0, root@));
        names
    }

    fn plain_components(&self) -> (r: Vec<Vec<u8>>)
        ensures
            byte_views(r@) == plain_components(self@),
    {
        let b = &self.bytes;
        let mut out: Vec<Vec<u8>> = Vec::new();
        let start = body_start_of(b);
        if start == 1 {
            let first = sub_bytes(b, 0, 1);
            assert(first@ =~= b@.take(1));
            out.push(first);
            assert(byte_views(out@) =~= seq![b@.take(1)]);
        }
        let mut i: usize = start;
        assert(byte_views(out@) + names_from(b@, i as int) =~= plain_components(b@));
        while i < b.len()
            invariant
                b@ == self@,
                plain_components(self@) == byte_views(out@) + names_from(b@, i as int),
            decreases b.len() - i,
        {
            let end = slash_from_of(b, i);
            if !filler(b, i, end) {
                let name = sub_bytes(b, i, end);
                let ghost rest = if end < b@.len() {
                    names_from(b@, end + 1)
                } else {
                    Seq::empty()
                };
                assert(byte_views(out@.push(name)) =~= byte_views(out@).push(name@));
                assert(byte_views(out@) + (seq![name@] + rest) =~= byte_views(out@).push(name@)
                    + rest);
                out.push(name);
            }
            if end == b.len() {
                assert(names_from(b@, end as int) =~= Seq::empty());
                i = end;
            } else {
                i = end + 1;
            }
        }
        assert(byte_views(out@) + Seq::<Seq<u8>>::empty() =~= byte_views(out@));
        out
    }

    /// Whether two paths have the same components.
    pub fn same(&self, other: &FilePath) -> (r: bool)
        ensures
            r == same_path(self@, other@),
    {
        let a = self.components();
        let b = other.components();
        same_names(&a, &b)
    }

    /// The path without its last component.
    pub fn parent(&self) -> (r: Option<FilePath>)
        ensures
            r is Some <==> parent(self@) is Some,
            r matches Some(p) ==> parent(self@) == Some(p@),
    {
        if !self.is_marked() {
            return self.plain_parent();
        }
        let written = self.spelling();
        let prefix = prefix_len_of(&written);
        let rest = self.slashed_part();
        proof {
            lemma_prefix_len(written@);
            crate::paths::lemma_plain_parent_len(rest@);
        }
        match rest.plain_parent() {
            Some(up) => {
                let len = self.bytes.len();
                assert(1 + prefix + up@.len() <= len);
                let out = sub_bytes(&self.bytes, 0, 1 + prefix + up.bytes.len());
                assert(out@ =~= self@.take(1 + prefix_len(written@) + up@.len()));
                Some(FilePath { bytes: out })
            },
            None => None,
        }
    }

    fn plain_parent(&self) -> (r: Option<FilePath>)
        ensures
            r is Some <==> plain_parent(self@) is Some,
            r matches Some(p) ==> plain_parent(self@) == Some(p@) && p@.len() <= self@.len(),
    {
        let n = trimmed_len(&self.bytes);
        let t = sub_bytes(&self.bytes, 0, n);
        assert(t@ =~= trim_tail(self@));
        let low = body_start_of(&t);
        if t.len() > low {
            let start = segment_start_of(&t, low);
            let cut: usize = if start > low {
                start - 1
            } else {
                low
            };
            let head = sub_bytes(&t, 0, cut);
            assert(head@ =~= before_last_segment(t@));
            let m = trimmed_len(&head);
            let out = sub_bytes(&head, 0, m);
            assert(out@ =~= trim_tail(head@));
            Some(FilePath { bytes: out })
        } else if t.len() > 0 && t[0] == DOT {
            let out: Vec<u8> = Vec::new();
            assert(out@ =~= Seq::empty());
            Some(FilePath { bytes: out })
        } else {
            None
        }
    }

    /// The last component, where it is a name.
    pub fn file_name(&self) -> (r: Option<Vec<u8>>)
        ensures
            r is Some <==> file_name(self@) is Some,
            r matches Some(name) ==> file_name(self@) == Some(name@),
    {
        self.slashed_part().plain_file_name()
    }

    fn plain_file_name(&self) -> (r: Option<Vec<u8>>)
        ensures
            r is Some <==> plain_file_name(self@) is Some,
            r matches Some(name) ==> plain_file_name(self@) == Some(name@),
    {
        let n = trimmed_len(&self.bytes);
        let t = sub_bytes(&self.bytes, 0, n);
        assert(t@ =~= trim_tail(self@));
        let low = body_start_of(&t);
        if t.len() <= low {
            return None;
        }
        let start = segment_start_of(&t, low);
        let name = sub_bytes(&t, start, t.len());
        assert(name@ =~= last_segment(t@));
        if name.len() == 2 && name[0] == DOT && name[1] == DOT {
            assert(name@ =~= seq![DOT, DOT]);
            return None;
        }
        proof {
            if name@ == seq![DOT, DOT] {
                assert(name@[0] == DOT && name@[1] == DOT && name@.len() == 2);
            }
        }
        Some(name)
    }

    /// The text that the path spells, where it is valid UTF-8.
    pub fn to_text(&self) -> (r: Option<String>)
        ensures
            r is Some <==> text::utf8_text(spelled(self@)) is Some,
            r matches Some(t) ==> text::utf8_text(spelled(self@)) == Some(t@),
    {
        text::text_of(&self.spelling())
    }

    /// The path as text for a message; bytes that are not UTF-8 are replaced.
    pub fn display(&self) -> (r: String)
        ensures
            r@ == shown(self@),
            text::utf8_text(spelled(self@)) matches Some(t) ==> r@ == t,
    {
        text::lossy(&self.spelling())
    }

    /// What stands below a directory of the root, where the path is there.
    pub fn below_root_name(&self, name: &str) -> (r: Option<FilePath>)
        ensures
            r is Some <==> below_root_name(self@, text::text_bytes(name@)) is Some,
            r matches Some(p) ==> below_root_name(self@, text::text_bytes(name@)) == Some(p@),
    {
        let b = &self.bytes;
        if !self.is_rooted() {
            return None;
        }
        let start = next_name_of(b, 1);
        if start >= b.len() {
            return None;
        }
        let end = slash_from_of(b, start);
        let first = sub_bytes(b, start, end);
        if !text::same_bytes(&first, &text::bytes_of(name)) {
            return None;
        }
        let from = if end < b.len() {
            next_name_of(b, end + 1)
        } else {
            b.len()
        };
        let rest = sub_bytes(b, from, b.len());
        assert(rest@ =~= b@.skip(from as int));
        let m = trimmed_len(&rest);
        let out = sub_bytes(&rest, 0, m);
        assert(out@ =~= trim_tail(rest@));
        Some(FilePath { bytes: out })
    }
}

fn next_name_of(b: &[u8], from: usize) -> (r: usize)
    requires
        from <= b@.len(),
    ensures
        r == next_name(b@, from as int),
        r <= b@.len(),
{
    let mut i: usize = from;
    while i < b.len()
        invariant
            i <= b@.len(),
            next_name(b@, from as int) == next_name(b@, i as int),
        decreases b.len() - i,
    {
        let end = slash_from_of(b, i);
        if !filler(b, i, end) {
            return i;
        }
        if end == b.len() {
            return end;
        }
        i = end + 1;
    }
    i
}

/// Whether two lists of names are the same.
pub fn same_names(a: &Vec<Vec<u8>>, b: &Vec<Vec<u8>>) -> (r: bool)
    ensures
        r == (byte_views(a@) == byte_views(b@)),
{
    assert(byte_views(a@).len() == a@.len());
    assert(byte_views(b@).len() == b@.len());
    if a.len() != b.len() {
        return false;
    }
    let mut i: usize = 0;
    while i < a.len()
        invariant
            i <= a@.len() == b@.len(),
            forall|k: int| 0 <= k < i ==> (#[trigger] a@[k])@ == b@[k]@,
        decreases a.len() - i,
    {
        if !text::same_bytes(&a[i], &b[i]) {
            assert(byte_views(a@)[i as int] != byte_views(b@)[i as int]);
            return false;
        }
        i += 1;
    }
    assert(byte_views(a@) =~= byte_views(b@));
    true
}

/// Whether a list holds a path, under whatever spelling.
pub open spec fn holds_path(list: Seq<Seq<u8>>, path: Seq<u8>) -> bool {
    exists|k: int| 0 <= k < list.len() && same_path(#[trigger] list[k], path)
}

/// A list with a path at its end, unless the list holds it.
pub open spec fn with_path(list: Seq<Seq<u8>>, path: Seq<u8>) -> Seq<Seq<u8>> {
    if holds_path(list, path) {
        list
    } else {
        list.push(path)
    }
}

/// Puts a path at the end of a list, unless the list holds it.
pub fn push_unique(list: &mut Vec<FilePath>, path: FilePath)
    ensures
        path_views(final(list)@) == with_path(path_views(old(list)@), path@),
{
    let ghost views = path_views(list@);
    let mut k: usize = 0;
    while k < list.len()
        invariant
            k <= list@.len(),
            *list == *old(list),
            views == path_views(list@),
            forall|m: int| 0 <= m < k ==> !same_path(#[trigger] views[m], path@),
        decreases list.len() - k,
    {
        assert(views[k as int] == list@[k as int]@);
        if list[k].same(&path) {
            return;
        }
        k += 1;
    }
    assert(views.len() == list@.len());
    list.push(path);
    assert(path_views(list@) =~= views.push(path@));
}

} // verus!
