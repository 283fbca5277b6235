//! Safe names for downloaded files.
use vstd::prelude::*;
use vstd::utf8::*;

use crate::percent::percent_decode;
use crate::percent::{percent_decoded, unescaped, utf8_lossy};
use crate::text::{chars_of, decimal_string, is_control, trim};
use crate::text::{decimal, is_control_char, is_white, law_trimmed_has_bare_ends, law_trimmed_is_what_blanks_surround, lemma_decimal_digits, lemma_trim_end, lemma_trim_start, trim_start, trimmed};
use crate::web_url::last_path_segment;
use crate::web_url::url_path_segments;

verus! {

/// The characters that no file name may hold: path separators and what file
/// systems reserve.
pub open spec fn is_reserved(c: char) -> bool {
    c == '/' || c == '\\' || c == ':' || c == '*' || c == '?' || c == '"' || c == '<' || c == '>'
        || c == '|'
}

/// What stands for `c` in a file name.
pub open spec fn clean_char(c: char) -> char {
    if is_reserved(c) || is_control_char(c) {
        '_'
    } else {
        c
    }
}

/// `decoded` with each character cleaned and the ends trimmed.
pub open spec fn cleaned(decoded: Seq<char>) -> Seq<char> {
    trimmed(decoded.map_values(|c: char| clean_char(c)))
}

/// Whether a cleaned name names a file.
pub open spec fn is_usable(name: Seq<char>) -> bool {
    name.len() > 0 && name != "."@ && name != ".."@
}

/// The name of a download that has no usable name, at `stamp` seconds since
/// the epoch.
pub open spec fn stamped_name(stamp: nat) -> Seq<char> {
    "download-"@ + decimal(stamp)
}

/// The text that names a download, where its address has a last segment.
pub open spec fn decoded_segment(raw: Option<Seq<char>>) -> Seq<char> {
    match raw {
        Some(s) => percent_decoded(s),
        None => Seq::empty(),
    }
}

/// The decoded name of a download from the address `url`.
pub open spec fn decoded_url_name(url: Seq<char>) -> Seq<char> {
    decoded_segment(
        match url_path_segments(url) {
            Some(segments) => Some(segments.last()),
            None => None,
        },
    )
}

/// Whether `r` is a name for a download with the decoded name `decoded`: the
/// cleaned name where it is usable, else one made from a time.
pub open spec fn names_download(decoded: Seq<char>, r: Seq<char>) -> bool {
    if is_usable(cleaned(decoded)) {
        r == cleaned(decoded)
    } else {
        exists|stamp: u64| r == #[trigger] stamped_name(stamp as nat)
    }
}

/// What a file name is made safe by: it is not empty and no dot name, and it
/// holds no separator, reserved or control character and no blank at its ends.
pub open spec fn is_safe_name(name: Seq<char>) -> bool {
    &&& is_usable(name)
    &&& forall|i: int|
        0 <= i < name.len() ==> !is_reserved(#[trigger] name[i]) && !is_control_char(name[i])
    &&& !is_white(name.first())
    &&& !is_white(name.last())
}

/// The clock of std, `SystemTime::now`, in whole seconds since `UNIX_EPOCH`;
/// `None` where it stands before that. Nothing is stated of the time it tells.
#[verifier::external_body]
fn seconds_since_epoch() -> (r: Option<u64>) {
    std::time::SystemTime::now().duration_since(std::time::UNIX_EPOCH).ok().map(|d| d.as_secs())
}

fn clean_one(c: char) -> (r: char)
    ensures
        r == clean_char(c),
{
    if c == '/' || c == '\\' || c == ':' || c == '*' || c == '?' || c == '"' || c == '<' || c == '>'
        || c == '|' || is_control(c) {
        '_'
    } else {
        c
    }
}

/// Cleans a decoded name. `None` if nothing usable is left of it.
pub fn clean_filename(decoded: &str) -> (r: Option<String>)
    ensures
        match r {
            Some(name) => is_usable(cleaned(decoded@)) && name@ == cleaned(decoded@),
            None => !is_usable(cleaned(decoded@)),
        },
        r matches Some(name) ==> name@ == cleaned(decoded@) && name@.len() > 0 && name@ != "."@
            && name@ != ".."@,
        r is None ==> cleaned(decoded@).len() == 0 || cleaned(decoded@) == "."@ || cleaned(decoded@)
            == ".."@,
{
    let chars = chars_of(decoded);
    let ghost target = decoded@.map_values(|c: char| clean_char(c));
    let mut out = String::new();
    for i in 0..chars.len()
        invariant
            chars@ == decoded@,
            target == decoded@.map_values(|c: char| clean_char(c)),
            out@ == target.take(i as int),
    {
        out.push(clean_one(chars[i]));
        assert(target.take(i + 1) =~= target.take(i as int).push(target[i as int]));
    }
    assert(target.take(chars@.len() as int) =~= target);
    let name = trim(out.as_str());
    if name.as_str().is_empty() || name == ".".to_string() || name == "..".to_string() {
        None
    } else {
        Some(name)
    }
}

/// The name of a download that has no usable name, given the seconds since the
/// epoch. A clock before the epoch counts as the epoch.
pub fn fallback_filename(clock: Option<u64>) -> (r: String)
    ensures
        r@ == stamped_name(
            match clock {
                Some(s) => s as nat,
                None => 0,
            },
        ),
        clock matches Some(s) ==> r@ == "download-"@ + decimal(s as nat),
        clock is None ==> r@ == "download-"@ + decimal(0),
{
    let stamp: u64 = match clock {
        Some(s) => s,
        None => 0,
    };
    let mut r = "download-".to_string();
    r.append(decimal_string(stamp).as_str());
    r
}

/// Turns the last path segment of a download address into a safe file name.
/// Where nothing usable is left, as with an address that ends in `/`, the name
/// is made from the current time.
pub fn sanitize_download_filename(raw: Option<&str>) -> (r: String)
    ensures
        names_download(
            decoded_segment(
                match raw {
                    Some(s) => Some(s@),
                    None => None,
                },
            ),
            r@,
        ),
        raw matches Some(s) ==> names_download(utf8_lossy(unescaped(encode_utf8(s@))), r@),
        raw matches Some(s) ==> valid_utf8(unescaped(encode_utf8(s@))) ==> names_download(
            decode_utf8(unescaped(encode_utf8(s@))),
            r@,
        ),
        raw matches Some(s) ==> !s@.contains('%') ==> names_download(s@, r@),
        raw is None ==> names_download(Seq::empty(), r@),
        is_safe_name(r@),
{
    let decoded = match raw {
        Some(s) => percent_decode(s),
        None => String::new(),
    };
    assert(raw is None ==> decoded@ =~= Seq::empty());
    let r = match clean_filename(decoded.as_str()) {
        Some(name) => name,
        None => fallback_filename(seconds_since_epoch()),
    };
    proof {
        law_download_name_is_safe(decoded@, r@);
    }
    r
}

/// The safe name for a download from the address `url`.
pub fn download_filename(url: &str) -> (r: String)
    ensures
        names_download(decoded_url_name(url@), r@),
        url_path_segments(url@) matches Some(segments) ==> names_download(
            utf8_lossy(unescaped(encode_utf8(segments.last()))),
            r@,
        ),
        url_path_segments(url@) matches Some(segments) ==> !segments.last().contains('%')
            ==> names_download(segments.last(), r@),
        url_path_segments(url@) is None ==> names_download(Seq::empty(), r@),
        is_safe_name(r@),
{
    match last_path_segment(url) {
        Some(s) => sanitize_download_filename(Some(s.as_str())),
        None => sanitize_download_filename(None),
    }
}

proof fn lemma_trimmed_within(s: Seq<char>)
    ensures
        forall|i: int| 0 <= i < trimmed(s).len() ==> s.contains(#[trigger] trimmed(s)[i]),
{
    let a = trim_start(s);
    let t = trimmed(s);
    lemma_trim_start(s);
    lemma_trim_end(a);
    assert forall|i: int| 0 <= i < t.len() implies s.contains(#[trigger] t[i]) by {
        assert(t[i] == a[i]);
        assert(a[i] == s[s.len() - a.len() + i]);
    }
}

/// Every name given to a download is safe.
pub proof fn law_download_name_is_safe(decoded: Seq<char>, name: Seq<char>)
    requires
        names_download(decoded, name),
    ensures
        is_safe_name(name),
{
    if is_usable(cleaned(decoded)) {
        let mapped = decoded.map_values(|c: char| clean_char(c));
        lemma_trimmed_within(mapped);
        law_trimmed_has_bare_ends(mapped);
        assert forall|i: int| 0 <= i < name.len() implies !is_reserved(#[trigger] name[i])
            && !is_control_char(name[i]) by {
            let j = choose|j: int| 0 <= j < mapped.len() && mapped[j] == name[i];
            assert(mapped[j] == clean_char(decoded[j]));
        }
    } else {
        let stamp = choose|stamp: u64| name == #[trigger] stamped_name(stamp as nat);
        reveal_strlit("download-");
        reveal_strlit(".");
        reveal_strlit("..");
        lemma_decimal_digits(stamp as nat);
        let d = decimal(stamp as nat);
        assert(name.last() == d.last());
        assert(name[0] == 'd');
        assert forall|i: int| 0 <= i < name.len() implies !is_reserved(#[trigger] name[i])
            && !is_control_char(name[i]) by {
            if i >= 9 {
                assert(name[i] == d[i - 9]);
            }
        }
    }
}

/// A safe name is cleaned to itself: cleaning a name twice changes nothing
/// more.
pub proof fn law_safe_name_is_kept(name: Seq<char>)
    requires
        is_safe_name(name),
    ensures
        cleaned(name) == name,
        is_usable(cleaned(name)),
{
    assert(name.map_values(|c: char| clean_char(c)) =~= name);
    law_trimmed_has_bare_ends(name);
}

proof fn lemma_reserved_are_listed(c: char)
    ensures
        is_reserved(c) <==> "/\\:*?\"<>|"@.contains(c),
        is_control_char(c) <==> c <= '\u{1f}' || '\u{7f}' <= c <= '\u{9f}',
        is_white(c) ==> !is_reserved(c),
        !is_white('_'),
{
    reveal_strlit("/\\:*?\"<>|");
    let all = "/\\:*?\"<>|"@;
    assert(all[0] == '/' && all[1] == '\\' && all[2] == ':' && all[3] == '*' && all[4] == '?');
    assert(all[5] == '"' && all[6] == '<' && all[7] == '>' && all[8] == '|');
    assert(all.len() == 9);
}

/// Cleaning keeps a name in its place, character by character, puts `_` for
/// each path separator, each character that file systems reserve and each
/// control character, and drops the blanks around the name. Nothing else is
/// changed, however long the name is.
pub proof fn law_cleaning_is_character_by_character(
    pre: Seq<char>,
    name: Seq<char>,
    post: Seq<char>,
    kept: Seq<char>,
)
    requires
        forall|i: int|
            0 <= i < pre.len() ==> is_white(#[trigger] pre[i]) && !(pre[i] <= '\u{1f}' || '\u{7f}'
                <= pre[i] <= '\u{9f}'),
        forall|i: int|
            0 <= i < post.len() ==> is_white(#[trigger] post[i]) && !(post[i] <= '\u{1f}'
                || '\u{7f}' <= post[i] <= '\u{9f}'),
        kept.len() == name.len(),
        forall|i: int|
            0 <= i < name.len() ==> #[trigger] kept[i] == if "/\\:*?\"<>|"@.contains(name[i])
                || name[i] <= '\u{1f}' || '\u{7f}' <= name[i] <= '\u{9f}' {
                '_'
            } else {
                name[i]
            },
        kept.len() > 0 ==> !is_white(kept[0]) && !is_white(kept[kept.len() - 1]),
    ensures
        cleaned(pre + name + post) == kept,
{
    let decoded = pre + name + post;
    let mapped = decoded.map_values(|c: char| clean_char(c));
    assert(mapped =~= pre + kept + post) by {
        assert forall|i: int| 0 <= i < mapped.len() implies #[trigger] mapped[i] == (pre + kept
            + post)[i] by {
            lemma_reserved_are_listed(decoded[i]);
            if i < pre.len() {
                assert(decoded[i] == pre[i]);
            } else if i < pre.len() + name.len() {
                assert(decoded[i] == name[i - pre.len()]);
                assert((pre + kept + post)[i] == kept[i - pre.len()]);
            } else {
                assert(decoded[i] == post[i - pre.len() - name.len()]);
                assert((pre + kept + post)[i] == post[i - pre.len() - name.len()]);
            }
        }
    }
    law_trimmed_is_what_blanks_surround(pre, kept, post);
}

/// A download is stored under its cleaned name, however long that is, unless
/// nothing or only a dot name is left of it.
pub proof fn law_cleaned_name_is_given(
    pre: Seq<char>,
    name: Seq<char>,
    post: Seq<char>,
    kept: Seq<char>,
    r: Seq<char>,
)
    requires
        forall|i: int|
            0 <= i < pre.len() ==> is_white(#[trigger] pre[i]) && !(pre[i] <= '\u{1f}' || '\u{7f}'
                <= pre[i] <= '\u{9f}'),
        forall|i: int|
            0 <= i < post.len() ==> is_white(#[trigger] post[i]) && !(post[i] <= '\u{1f}'
                || '\u{7f}' <= post[i] <= '\u{9f}'),
        kept.len() == name.len(),
        forall|i: int|
            0 <= i < name.len() ==> #[trigger] kept[i] == if "/\\:*?\"<>|"@.contains(name[i])
                || name[i] <= '\u{1f}' || '\u{7f}' <= name[i] <= '\u{9f}' {
                '_'
            } else {
                name[i]
            },
        kept.len() > 0,
        !is_white(kept[0]),
        !is_white(kept[kept.len() - 1]),
        kept != "."@,
        kept != ".."@,
        names_download(pre + name + post, r),
    ensures
        r == kept,
{
    law_cleaning_is_character_by_character(pre, name, post, kept);
}

/// A name that is already safe is given to the download as it is, whatever its
/// length.
pub proof fn law_safe_name_is_given(decoded: Seq<char>, r: Seq<char>)
    requires
        decoded.len() > 0,
        decoded != "."@,
        decoded != ".."@,
        forall|i: int|
            0 <= i < decoded.len() ==> !"/\\:*?\"<>|"@.contains(#[trigger] decoded[i])
                && !(decoded[i] <= '\u{1f}') && !('\u{7f}' <= decoded[i] <= '\u{9f}'),
        !is_white(decoded[0]),
        !is_white(decoded[decoded.len() - 1]),
        names_download(decoded, r),
    ensures
        r == decoded,
{
    let none = Seq::<char>::empty();
    assert(none + decoded + none =~= decoded);
    law_cleaned_name_is_given(none, decoded, none, decoded, r);
}

/// A name is made from a time only where the decoded text has nothing but
/// blanks around nothing, `.` or `..`; it is then `download-` and the seconds
/// in decimal digits.
pub proof fn law_stamp_stands_in_for_no_name(
    pre: Seq<char>,
    name: Seq<char>,
    post: Seq<char>,
    r: Seq<char>,
)
    requires
        forall|i: int|
            0 <= i < pre.len() ==> is_white(#[trigger] pre[i]) && !(pre[i] <= '\u{1f}' || '\u{7f}'
                <= pre[i] <= '\u{9f}'),
        forall|i: int|
            0 <= i < post.len() ==> is_white(#[trigger] post[i]) && !(post[i] <= '\u{1f}'
                || '\u{7f}' <= post[i] <= '\u{9f}'),
        name.len() == 0 || name == "."@ || name == ".."@,
        names_download(pre + name + post, r),
    ensures
        exists|stamp: u64| r == "download-"@ + #[trigger] decimal(stamp as nat),
{
    reveal_strlit(".");
    reveal_strlit("..");
    assert forall|i: int| 0 <= i < name.len() implies #[trigger] name[i]
        == if "/\\:*?\"<>|"@.contains(name[i]) || name[i] <= '\u{1f}' || '\u{7f}' <= name[i]
        <= '\u{9f}' {
        '_'
    } else {
        name[i]
    } by {
        lemma_reserved_are_listed(name[i]);
    }
    law_cleaning_is_character_by_character(pre, name, post, name);
    let stamp = choose|stamp: u64| r == #[trigger] stamped_name(stamp as nat);
    assert(r == "download-"@ + decimal(stamp as nat));
}

/// Whatever a download is called, its name is not empty and no dot name, holds
/// no separator, reserved or control character, and begins and ends with
/// something else than white space.
pub proof fn law_given_name_is_safe(decoded: Seq<char>, r: Seq<char>)
    requires
        names_download(decoded, r),
    ensures
        r.len() > 0,
        r != "."@,
        r != ".."@,
        forall|i: int|
            0 <= i < r.len() ==> !"/\\:*?\"<>|"@.contains(#[trigger] r[i]) && !(r[i] <= '\u{1f}')
                && !('\u{7f}' <= r[i] <= '\u{9f}'),
        !is_white(r[0]),
        !is_white(r[r.len() - 1]),
{
    law_download_name_is_safe(decoded, r);
    assert forall|i: int| 0 <= i < r.len() implies !"/\\:*?\"<>|"@.contains(#[trigger] r[i]) && !(r[i]
        <= '\u{1f}') && !('\u{7f}' <= r[i] <= '\u{9f}') by {
        lemma_reserved_are_listed(r[i]);
    }
}

/// What two downloads with one decoded name are called is the same, unless
/// both names are made from a time.
pub proof fn law_name_rests_on_the_text(decoded: Seq<char>, r1: Seq<char>, r2: Seq<char>)
    requires
        names_download(decoded, r1),
        names_download(decoded, r2),
    ensures
        r1 == r2 || ("download-"@.is_prefix_of(r1) && "download-"@.is_prefix_of(r2)),
{
    if r1 != r2 {
        let s1 = choose|stamp: u64| r1 == #[trigger] stamped_name(stamp as nat);
        let s2 = choose|stamp: u64| r2 == #[trigger] stamped_name(stamp as nat);
        assert(r1.take("download-"@.len() as int) =~= "download-"@);
        assert(r2.take("download-"@.len() as int) =~= "download-"@);
    }
}

} // verus!
