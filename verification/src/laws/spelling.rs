//! How paths are written, and what is read out of them.
use vstd::prelude::*;
use vstd::utf8::is_ascii_chars_encode_utf8;

use clap_complete::Shell as ClapShell;

use crate::environment::Platform;
use crate::laws::places::lemma_alias_bytes;
use crate::model::Shell;
use crate::path::{
    body_start, components, drive_letter, is_absolute, is_filler, names_from, on, plain_components,
    prefix_len, separator_from, slash_from, slashed, spelled,
};
use crate::paths::{alias_from, is_system_alias, macos_aliases};
use crate::render::{generator_of, shell_of};
use crate::text::text_bytes;

verus! {

/// Bytes with a slash before each of some segments.
pub open spec fn slash_text(segments: Seq<Seq<u8>>) -> Seq<u8>
    decreases segments.len(),
{
    if segments.len() == 0 {
        Seq::empty()
    } else {
        seq!['/' as u8] + segments[0] + slash_text(segments.skip(1))
    }
}

/// Whether a segment is one between two slashes.
pub open spec fn is_segment(segment: Seq<u8>) -> bool {
    !segment.contains('/' as u8)
}

/// The segments that name something: not the empty ones, and not those that are a dot.
pub open spec fn naming(segments: Seq<Seq<u8>>) -> Seq<Seq<u8>>
    decreases segments.len(),
{
    if segments.len() == 0 {
        Seq::empty()
    } else if segments[0].len() == 0 || segments[0] == seq!['.' as u8] {
        naming(segments.skip(1))
    } else {
        seq![segments[0]] + naming(segments.skip(1))
    }
}

proof fn lemma_slash(b: Seq<u8>, from: int, to: int)
    requires
        0 <= from <= to <= b.len(),
        forall|k: int| from <= k < to ==> #[trigger] b[k] != '/' as u8,
        to < b.len() ==> b[to] == '/' as u8,
    ensures
        slash_from(b, from) == to,
    decreases to - from,
{
    if from < to {
        assert(b[from] != '/' as u8);
        lemma_slash(b, from + 1, to);
    }
}

/// The names behind a slash, of which there are as many as segments.
proof fn lemma_names(b: Seq<u8>, from: int, segments: Seq<Seq<u8>>)
    requires
        1 <= from <= b.len(),
        segments.len() > 0,
        forall|k: int| 0 <= k < segments.len() ==> is_segment(#[trigger] segments[k]),
        b.skip(from - 1) == slash_text(segments),
    ensures
        names_from(b, from) == naming(segments),
    decreases segments.len(),
{
    let first = segments[0];
    let rest = segments.skip(1);
    let text = slash_text(segments);
    let to = from + first.len();
    assert(is_segment(segments[0]));
    assert forall|k: int| 0 <= k < rest.len() implies is_segment(#[trigger] rest[k]) by {
        assert(rest[k] == segments[k + 1]);
    }
    assert forall|k: int| 0 <= k < text.len() implies b[from - 1 + k] == #[trigger] text[k] by {
        assert(b.skip(from - 1)[k] == b[from - 1 + k]);
    }
    assert(text.len() == b.len() - from + 1);
    assert forall|k: int| from <= k < to implies #[trigger] b[k] != '/' as u8 by {
        assert(b[k] == text[k - from + 1]);
        assert(text[k - from + 1] == first[k - from]);
        assert(first.contains(first[k - from]));
    }
    assert(slash_text(segments) == seq!['/' as u8] + first + slash_text(rest));
    if rest.len() > 0 {
        assert(slash_text(rest)[0] == '/' as u8);
        assert(b[to] == text[to - from + 1]);
        assert forall|k: int| 0 <= k < slash_text(rest).len() implies b.skip(to)[k]
            == #[trigger] slash_text(rest)[k] by {
            assert(text[1 + first.len() + k] == slash_text(rest)[k]);
            assert(b[to + k] == text[to - from + 1 + k]);
        }
        assert(b.skip(to) =~= slash_text(rest));
        lemma_slash(b, from, to);
        lemma_names(b, to + 1, rest);
    } else {
        assert(slash_text(rest) =~= Seq::empty());
        assert(b.len() == to);
        lemma_slash(b, from, to);
        assert(naming(rest) =~= Seq::empty());
        assert(names_from(b, to + 1) =~= Seq::empty());
    }
    if from < b.len() {
        assert forall|k: int| 0 <= k < first.len() implies b.subrange(from, to)[k]
            == #[trigger] first[k] by {
            assert(text[1 + k] == first[k]);
            assert(b[from + k] == text[k + 1]);
        }
        assert(b.subrange(from, to) =~= first);
        assert(is_filler(first) <==> first.len() == 0 || first == seq!['.' as u8]);
        assert(names_from(b, from) == (if is_filler(first) {
            if to < b.len() {
                names_from(b, to + 1)
            } else {
                Seq::empty()
            }
        } else {
            seq![first] + (if to < b.len() {
                names_from(b, to + 1)
            } else {
                Seq::empty()
            })
        }));
    } else {
        assert(first.len() == 0);
        assert(rest.len() == 0);
    }
}

/// Outside of Windows a path that begins with a slash is absolute. Its components are the root and
/// the names between the slashes; repeated slashes, one at the end and dots count for nothing.
pub proof fn law_rooted_paths_are_made_of_names(platform: Platform, segments: Seq<Seq<u8>>)
    requires
        platform != Platform::Windows,
        segments.len() > 0,
        forall|k: int| 0 <= k < segments.len() ==> is_segment(#[trigger] segments[k]),
    ensures
        ({
            let path = on(platform, slash_text(segments));
            &&& spelled(path) == slash_text(segments)
            &&& is_absolute(platform, path)
            &&& components(path) == seq![seq!['/' as u8]] + naming(segments)
        }),
{
    let b = slash_text(segments);
    assert(b[0] == '/' as u8);
    assert(b.skip(0) =~= b);
    lemma_names(b, 1, segments);
    assert(body_start(b) == 1);
    assert(b.take(1) =~= seq!['/' as u8]);
    assert(plain_components(b) == seq![b.take(1)] + names_from(b, 1));
}

/// Outside of Windows no path is absolute but those that begin with a slash.
pub proof fn law_other_paths_are_relative(platform: Platform, b: Seq<u8>)
    requires
        platform != Platform::Windows,
        spelled(b) == b,
    ensures
        is_absolute(platform, on(platform, b)) <==> b.len() > 0 && b[0] == '/' as u8,
{
}

/// Whether a byte is a letter of the alphabet.
pub open spec fn is_letter(c: u8) -> bool {
    'a' as u8 <= c <= 'z' as u8 || 'A' as u8 <= c <= 'Z' as u8
}

/// On Windows a path is absolute if it begins with a drive and a separator, of either kind, or with
/// the name of a share. A drive alone, a drive with a name behind it and a separator alone begin at
/// no root.
pub proof fn law_windows_paths_begin_at_a_drive_or_share(
    letter: u8,
    separator: u8,
    server: Seq<u8>,
    share: Seq<u8>,
    rest: Seq<u8>,
)
    requires
        is_letter(letter),
        separator == '/' as u8 || separator == '\\' as u8,
        server.len() > 0 && share.len() > 0,
        forall|k: int|
            0 <= k < server.len() ==> #[trigger] server[k] != '/' as u8 && server[k] != '\\' as u8,
        forall|k: int|
            0 <= k < share.len() ==> #[trigger] share[k] != '/' as u8 && share[k] != '\\' as u8,
        rest.len() > 0 ==> rest[0] != '/' as u8 && rest[0] != '\\' as u8,
    ensures
        is_absolute(
            Platform::Windows,
            on(Platform::Windows, seq![letter, ':' as u8, separator] + rest),
        ),
        !is_absolute(
            Platform::Windows,
            on(Platform::Windows, seq![letter, ':' as u8] + rest),
        ),
        !is_absolute(Platform::Windows, on(Platform::Windows, seq![separator] + rest)),
        is_absolute(
            Platform::Windows,
            on(
                Platform::Windows,
                seq![separator, separator] + server + seq![separator] + share + seq![separator]
                    + rest,
            ),
        ),
{
    let a = seq![letter, ':' as u8, separator] + rest;
    let b = seq![letter, ':' as u8] + rest;
    let c = seq![separator] + rest;
    let s = seq![separator, separator] + server + seq![separator] + share + seq![separator] + rest;
    assert(a[0] == letter && a[1] == ':' as u8 && a[2] == separator);
    assert(b[0] == letter && b[1] == ':' as u8);
    if rest.len() > 0 {
        assert(b[2] == rest[0]);
        assert(c[1] == rest[0]);
    }
    assert(c[0] == separator);
    let n = 2 + server.len();
    let m = n + 1 + share.len();
    assert(s[0] == separator && s[1] == separator && s[n as int] == separator && s[m as int]
        == separator);
    assert forall|k: int| 2 <= k < n implies #[trigger] s[k] != '/' as u8 && s[k]
        != '\\' as u8 by {
        assert(s[k] == server[k - 2]);
    }
    assert forall|k: int| n < k < m implies #[trigger] s[k] != '/' as u8 && s[k]
        != '\\' as u8 by {
        assert(s[k] == share[k - n - 1]);
    }
    lemma_separator(s, 2, n as int);
    lemma_separator(s, n as int + 1, m as int);
    lemma_written(a);
    lemma_written(b);
    lemma_written(c);
    lemma_written(s);
    assert(prefix_len(a) == 2);
    assert(prefix_len(b) == 0);
    assert(prefix_len(c) == 0);
    assert(prefix_len(s) == m);
}

proof fn lemma_separator(s: Seq<u8>, from: int, to: int)
    requires
        0 <= from <= to < s.len(),
        forall|k: int| from <= k < to ==> #[trigger] s[k] != '/' as u8 && s[k] != '\\' as u8,
        s[to] == '/' as u8 || s[to] == '\\' as u8,
    ensures
        separator_from(s, from) == to,
    decreases to - from,
{
    if from < to {
        assert(s[from] != '/' as u8);
        lemma_separator(s, from + 1, to);
    }
}

/// What is written for Windows stays as it is written.
proof fn lemma_written(s: Seq<u8>)
    requires
        s.len() > 0,
        s[0] == '/' as u8 || s[0] == '\\' as u8 || is_letter(s[0]),
    ensures
        spelled(on(Platform::Windows, s)) == s,
        is_absolute(Platform::Windows, on(Platform::Windows, s)) <==> prefix_len(s) > 0,
{
    let path = on(Platform::Windows, s);
    assert(spelled(s) == s);
    assert(path.skip(1) =~= s);
}

/// On Windows a drive is the same in upper and lower case, and the two separators are the same.
/// Different drives are different.
pub proof fn law_drives_have_no_case(lower: u8, other: u8, rest: Seq<u8>)
    requires
        'a' as u8 <= lower <= 'z' as u8,
        'a' as u8 <= other <= 'z' as u8,
    ensures
        ({
            let upper = (lower - 'a' as u8 + 'A' as u8) as u8;
            let first = on(Platform::Windows, seq![lower, ':' as u8, '\\' as u8] + rest);
            let second = on(Platform::Windows, seq![upper, ':' as u8, '\\' as u8] + rest);
            let third = on(Platform::Windows, seq![upper, ':' as u8, '/' as u8] + rest);
            let fourth = on(Platform::Windows, seq![other, ':' as u8, '\\' as u8] + rest);
            &&& components(first) == components(second)
            &&& components(second) == components(third)
            &&& components(first).len() > 0
            &&& components(first)[0] == seq![upper, ':' as u8, '\\' as u8]
            &&& lower != other ==> components(first) != components(fourth)
        }),
{
    let upper = (lower - 'a' as u8 + 'A' as u8) as u8;
    lemma_drive(lower, '\\' as u8, rest);
    lemma_drive(upper, '\\' as u8, rest);
    lemma_drive(upper, '/' as u8, rest);
    lemma_drive(other, '\\' as u8, rest);
    let a = seq![drive_letter(lower), ':' as u8, '\\' as u8];
    let b = seq![drive_letter(other), ':' as u8, '\\' as u8];
    assert(drive_letter(lower) == upper && drive_letter(upper) == upper);
    assert(a[0] == drive_letter(lower) && b[0] == drive_letter(other));
    let tail = plain_components(seq!['/' as u8] + slashed(rest));
    assert(tail.update(0, a)[0] == a && tail.update(0, b)[0] == b);
    if lower != other {
        assert(drive_letter(lower) != drive_letter(other));
        assert(a[0] != b[0]);
    }
}

/// The components of a path on a drive.
proof fn lemma_drive(letter: u8, separator: u8, rest: Seq<u8>)
    requires
        is_letter(letter),
        separator == '/' as u8 || separator == '\\' as u8,
    ensures
        ({
            let tail = plain_components(seq!['/' as u8] + slashed(rest));
            let root = seq![drive_letter(letter), ':' as u8, '\\' as u8];
            &&& components(
                on(Platform::Windows, seq![letter, ':' as u8, separator] + rest),
            ) == tail.update(0, root)
            &&& tail.len() > 0
        }),
{
    let s = seq![letter, ':' as u8, separator] + rest;
    assert(s[0] == letter && s[1] == ':' as u8 && s[2] == separator);
    lemma_written(s);
    assert(prefix_len(s) == 2);
    assert(slashed(s.skip(2)) =~= seq!['/' as u8] + slashed(rest));
    let t = seq!['/' as u8] + slashed(rest);
    assert(body_start(t) == 1);
}

/// Whether a path is that of a directory of the root, and a link there leads to the directory of
/// the same name below `/private`, whether it says so from the root on or not.
pub open spec fn leads_to_private(path: Seq<u8>, link: Seq<u8>, name: Seq<char>) -> bool {
    &&& components(path) == seq![seq!['/' as u8], text_bytes(name)]
    &&& components(
        if link.len() > 0 && link[0] == '/' as u8 {
            link
        } else {
            seq!['/' as u8] + link
        },
    ) == seq![seq!['/' as u8], text_bytes("private"@), text_bytes(name)]
}

/// The links that macOS has of its own are those of `/var`, `/tmp` and `/etc` to the directories of
/// the same names below `/private`.
pub proof fn law_system_links_lead_to_private(path: Seq<u8>, link: Seq<u8>)
    requires
        spelled(link) == link,
    ensures
        is_system_alias(path, link) <==> leads_to_private(path, link, "var"@) || leads_to_private(
            path,
            link,
            "tmp"@,
        ) || leads_to_private(path, link, "etc"@),
{
    reveal_with_fuel(alias_from, 4);
    assert(macos_aliases().len() == 3);
    assert(macos_aliases()[0] == ("var"@, "/private/var"@));
    assert(macos_aliases()[1] == ("tmp"@, "/private/tmp"@));
    assert(macos_aliases()[2] == ("etc"@, "/private/etc"@));
    reveal_strlit("/");
    is_ascii_chars_encode_utf8("/"@);
    assert(text_bytes("/"@) =~= seq!['/' as u8]);
    lemma_root_directory("var"@, "/private/var"@);
    lemma_root_directory("tmp"@, "/private/tmp"@);
    lemma_root_directory("etc"@, "/private/etc"@);
    lemma_alias_bytes();
    assert(text_bytes("var"@)[0] == 118u8 && text_bytes("tmp"@)[0] == 116u8 && text_bytes(
        "etc"@,
    )[0] == 101u8);
    assert(seq![seq!['/' as u8], text_bytes("var"@)][1] == text_bytes("var"@));
    assert(seq![seq!['/' as u8], text_bytes("tmp"@)][1] == text_bytes("tmp"@));
    assert(seq![seq!['/' as u8], text_bytes("etc"@)][1] == text_bytes("etc"@));
}

/// The components of a directory of the root, and of the one of its name below `/private`.
proof fn lemma_root_directory(name: Seq<char>, place: Seq<char>)
    requires
        name == "var"@ && place == "/private/var"@ || name == "tmp"@ && place == "/private/tmp"@
            || name == "etc"@ && place == "/private/etc"@,
    ensures
        components(text_bytes("/"@ + name)) == seq![seq!['/' as u8], text_bytes(name)],
        components(text_bytes(place)) == seq![
            seq!['/' as u8],
            text_bytes("private"@),
            text_bytes(name),
        ],
{
    lemma_alias_bytes();
    reveal_strlit("/");
    reveal_strlit("var");
    reveal_strlit("tmp");
    reveal_strlit("etc");
    let n = text_bytes(name);
    is_ascii_chars_encode_utf8(name);
    is_ascii_chars_encode_utf8("/"@ + name);
    assert(text_bytes("/"@ + name) =~= seq!['/' as u8] + n);
    let private = text_bytes("private"@);
    let one = seq![n];
    let two = seq![private, n];
    assert(one.skip(1) =~= Seq::empty());
    assert(two.skip(1) =~= one);
    assert(slash_text(Seq::empty()) =~= Seq::empty());
    assert(slash_text(one) =~= seq!['/' as u8] + n);
    assert(slash_text(two) =~= seq!['/' as u8] + private + (seq!['/' as u8] + n));
    assert(text_bytes(place) =~= slash_text(two));
    assert(n.len() == 3 && private.len() == 7);
    assert forall|k: int| 0 <= k < two.len() implies is_segment(#[trigger] two[k]) by {}
    assert forall|k: int| 0 <= k < one.len() implies is_segment(#[trigger] one[k]) by {}
    law_rooted_paths_are_made_of_names(Platform::MacOs, one);
    law_rooted_paths_are_made_of_names(Platform::MacOs, two);
    assert(seq!['.' as u8].len() == 1);
    assert(naming(Seq::empty()) =~= Seq::<Seq<u8>>::empty());
    assert(naming(one) =~= seq![n]);
    assert(naming(two) =~= seq![private, n]);
}

/// Each supported shell has the script generator of its name, there and back.
pub proof fn law_generators_belong_to_their_shells(shell: Shell)
    ensures
        shell is Bash ==> generator_of(shell@) == Some(ClapShell::Bash),
        shell is Zsh ==> generator_of(shell@) == Some(ClapShell::Zsh),
        shell is Fish ==> generator_of(shell@) == Some(ClapShell::Fish),
        shell is Powershell ==> generator_of(shell@) == Some(ClapShell::PowerShell),
        shell is Elvish ==> generator_of(shell@) == Some(ClapShell::Elvish),
        shell is Other ==> generator_of(shell@) is None,
        generator_of(shell@) matches Some(generator) ==> shell_of(generator) == shell,
{
}

} // verus!
