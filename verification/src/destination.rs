//! Where a download is stored: the first name that is not taken yet.
use vstd::prelude::*;
use vstd::utf8::encode_utf8;

use crate::filename::download_filename;
use crate::filename::{decoded_url_name, is_reserved, is_safe_name, is_usable, names_download};
use crate::percent::{unescaped, utf8_lossy};
use crate::text::decimal_string;
use crate::text::{decimal, is_control_char, law_decimal_is_injective, lemma_decimal_digits};
use crate::web_url::url_path_segments;

verus! {

/// How many names can be tried: the name itself, and one for each number that
/// the counter can hold.
pub open spec fn candidate_count() -> nat {
    u64::MAX as nat + 1
}

/// Whether `name` is a single component of a path on every platform, and names
/// a file.
pub open spec fn is_plain(name: Seq<char>) -> bool {
    &&& is_usable(name)
    &&& !name.contains('/')
    &&& !name.contains('\\')
    &&& !name.contains(':')
}

/// Whether `name` begins with a letter and a colon, as a path on a Windows
/// drive does.
pub open spec fn begins_with_drive(name: Seq<char>) -> bool {
    &&& name.len() >= 2
    &&& 'a' <= name[0] <= 'z' || 'A' <= name[0] <= 'Z'
    &&& name[1] == ':'
}

/// Whether Windows and other platforms take `name` for the same path: `/`
/// separates the components, and there is neither a backslash nor anything that
/// Windows would take for a drive or a share.
pub open spec fn is_portable(name: Seq<char>) -> bool {
    &&& !name.contains('\\')
    &&& !begins_with_drive(name)
    &&& !(name.len() >= 2 && name[0] == '/' && name[1] == '/')
}

/// The position of the last `c` in `name`, or -1.
pub open spec fn last_index(name: Seq<char>, c: char) -> int
    decreases name.len(),
{
    if name.len() == 0 {
        -1
    } else if name.last() == c {
        name.len() - 1
    } else {
        last_index(name.drop_last(), c)
    }
}

/// The last component of a portable path, where that names a file. Empty
/// components and single dots do not count, and `..` names no file.
pub open spec fn last_component(name: Seq<char>) -> Option<Seq<char>>
    decreases name.len(),
    via last_component_shrinks
{
    let at = last_index(name, '/');
    let component = name.skip(at + 1);
    if component.len() == 0 || component == "."@ {
        if at < 0 {
            None
        } else {
            last_component(name.take(at))
        }
    } else if component == ".."@ {
        None
    } else {
        Some(component)
    }
}

#[via_fn]
proof fn last_component_shrinks(name: Seq<char>) {
    lemma_last_index(name, '/');
}

/// What stands before the last dot of a file name. A name without a dot, or
/// with none but the one it begins with, is all stem.
pub open spec fn plain_stem(name: Seq<char>) -> Seq<char> {
    if last_index(name, '.') <= 0 {
        name
    } else {
        name.take(last_index(name, '.'))
    }
}

/// What stands behind the last dot of a file name, unless the name is all
/// stem.
pub open spec fn plain_extension(name: Seq<char>) -> Option<Seq<char>> {
    if last_index(name, '.') <= 0 {
        None
    } else {
        Some(name.skip(last_index(name, '.') + 1))
    }
}

/// The stem of the file that a portable path names.
pub open spec fn path_stem(name: Seq<char>) -> Option<Seq<char>> {
    match last_component(name) {
        Some(component) => Some(plain_stem(component)),
        None => None,
    }
}

/// The extension of the file that a portable path names.
pub open spec fn path_extension(name: Seq<char>) -> Option<Seq<char>> {
    match last_component(name) {
        Some(component) => plain_extension(component),
        None => None,
    }
}

/// What numbers are put behind: the stem, or `download` where there is none.
pub open spec fn stem_of(name: Seq<char>) -> Seq<char> {
    match path_stem(name) {
        Some(stem) => stem,
        None => "download"@,
    }
}

/// `Path::file_stem` of std, on the path that `name` is. Of a portable path it
/// is what stands before the last dot of the last component that names a file;
/// there is none where no component does, or where the path ends in `..`. Of
/// any other path nothing is stated: how it splits depends on the platform.
#[verifier::external_body]
fn file_stem(name: &str) -> (r: Option<String>)
    ensures
        is_portable(name@) ==> r.deep_view() == path_stem(name@),
{
    std::path::Path::new(name).file_stem().and_then(|s| s.to_str()).map(|s| s.to_string())
}

/// `Path::extension` of std, on the path that `name` is. Of a portable path it
/// is what stands behind the last dot of the last component that names a file,
/// unless that component is all stem. Of any other path nothing is stated: how
/// it splits depends on the platform.
#[verifier::external_body]
fn extension(name: &str) -> (r: Option<String>)
    ensures
        is_portable(name@) ==> r.deep_view() == path_extension(name@),
{
    std::path::Path::new(name).extension().and_then(|s| s.to_str()).map(|s| s.to_string())
}

/// The name with the number `n` put before the extension.
pub open spec fn numbered(stem: Seq<char>, ext: Option<Seq<char>>, n: nat) -> Seq<char> {
    match ext {
        Some(e) => stem + " ("@ + decimal(n) + ")."@ + e,
        None => stem + " ("@ + decimal(n) + ")"@,
    }
}

/// The names to try, in order: first the name itself.
pub open spec fn candidate(
    filename: Seq<char>,
    stem: Seq<char>,
    ext: Option<Seq<char>>,
    k: nat,
) -> Seq<char> {
    if k == 0 {
        filename
    } else {
        numbered(stem, ext, k)
    }
}

/// Whether each of the first `k` names was answered to be taken.
pub open spec fn all_taken(
    filename: Seq<char>,
    stem: Seq<char>,
    ext: Option<Seq<char>>,
    answer: spec_fn(Seq<char>, bool) -> bool,
    k: nat,
) -> bool {
    forall|j: nat| j < k ==> answer(#[trigger] candidate(filename, stem, ext, j), true)
}

/// Whether the name with the number `k` is the first that was answered to be
/// free.
pub open spec fn first_free(
    filename: Seq<char>,
    stem: Seq<char>,
    ext: Option<Seq<char>>,
    answer: spec_fn(Seq<char>, bool) -> bool,
    k: nat,
) -> bool {
    &&& k < candidate_count()
    &&& all_taken(filename, stem, ext, answer, k)
    &&& answer(candidate(filename, stem, ext, k), false)
}

/// Whether `r` is the name to store under: the first free one. Only where every
/// number that the counter can hold is taken it is the name itself.
pub open spec fn picked(
    filename: Seq<char>,
    stem: Seq<char>,
    ext: Option<Seq<char>>,
    answer: spec_fn(Seq<char>, bool) -> bool,
    r: Seq<char>,
) -> bool {
    ||| exists|k: nat|
        #[trigger] first_free(filename, stem, ext, answer, k) && r == candidate(
            filename,
            stem,
            ext,
            k,
        )
    ||| all_taken(filename, stem, ext, answer, candidate_count()) && r == filename
}

/// The answers that `taken` can give: to the question whether a file of that
/// name exists.
pub open spec fn answers<F: Fn(&str) -> bool>(taken: F) -> spec_fn(Seq<char>, bool) -> bool {
    |name: Seq<char>, b: bool| exists|s: &str| s@ == name && call_ensures(taken, (s,), b)
}

/// `ext` by its characters.
pub open spec fn text_of(ext: Option<&str>) -> Option<Seq<char>> {
    match ext {
        Some(e) => Some(e@),
        None => None,
    }
}

/// Puts the number `n` before the extension.
pub fn numbered_name(stem: &str, ext: Option<&str>, n: u64) -> (r: String)
    ensures
        r@ == numbered(stem@, text_of(ext), n as nat),
        ext matches Some(e) ==> r@ == stem@ + " ("@ + decimal(n as nat) + ")."@ + e@,
        ext is None ==> r@ == stem@ + " ("@ + decimal(n as nat) + ")"@,
{
    let mut r = stem.to_string();
    r.append(" (");
    r.append(decimal_string(n).as_str());
    match ext {
        Some(e) => {
            r.append(").");
            r.append(e);
        },
        None => {
            r.append(")");
        },
    }
    r
}

/// Asks `taken` about the name, then about the numbered names in order, and
/// returns the first that is free. It goes on for as long as the counter can
/// hold the number.
pub fn first_free_name<F: Fn(&str) -> bool>(
    filename: &str,
    stem: &str,
    ext: Option<&str>,
    taken: F,
) -> (r: String)
    requires
        forall|s: &str| call_requires(taken, (s,)),
    ensures
        picked(filename@, stem@, text_of(ext), answers(taken), r@),
        ext matches Some(e) ==> picked(filename@, stem@, Some(e@), answers(taken), r@),
        ext is None ==> picked(filename@, stem@, None, answers(taken), r@),
{
    let ghost answer = answers(taken);
    if !taken(filename) {
        assert(answer(candidate(filename@, stem@, text_of(ext), 0), false));
        assert(first_free(filename@, stem@, text_of(ext), answer, 0));
        return filename.to_string();
    }
    assert(answer(candidate(filename@, stem@, text_of(ext), 0), true));
    let mut n: u64 = 0;
    while n < u64::MAX
        invariant
            forall|s: &str| call_requires(taken, (s,)),
            answer == answers(taken),
            all_taken(filename@, stem@, text_of(ext), answer, n as nat + 1),
        decreases u64::MAX - n,
    {
        n = n + 1;
        let name = numbered_name(stem, ext, n);
        let ghost asked = candidate(filename@, stem@, text_of(ext), n as nat);
        if !taken(name.as_str()) {
            assert(answer(asked, false));
            assert(first_free(filename@, stem@, text_of(ext), answer, n as nat));
            return name;
        }
        assert(answer(asked, true));
    }
    filename.to_string()
}

/// The name in the download directory under which a file called `filename` is
/// stored. `taken` tells whether the directory already holds a file of a given
/// name. If it holds `filename`, " (1)", " (2)" and so on is put before the
/// extension until the name is free, so that a repeated download never
/// overwrites an earlier one.
pub fn unique_download_path<F: Fn(&str) -> bool>(filename: &str, taken: F) -> (r: String)
    requires
        forall|s: &str| call_requires(taken, (s,)),
    ensures
        is_portable(filename@) ==> picked(
            filename@,
            stem_of(filename@),
            path_extension(filename@),
            answers(taken),
            r@,
        ),
        exists|stem: Seq<char>, ext: Option<Seq<char>>|
            picked(filename@, stem, ext, answers(taken), r@),
{
    let stem = match file_stem(filename) {
        Some(s) => s,
        None => "download".to_string(),
    };
    match extension(filename) {
        Some(e) => first_free_name(filename, stem.as_str(), Some(e.as_str()), taken),
        None => first_free_name(filename, stem.as_str(), None, taken),
    }
}

/// Where a download from the address `url` is stored in the download
/// directory: under the safe name of the download, or a numbered one.
pub fn download_destination<F: Fn(&str) -> bool>(url: &str, taken: F) -> (r: String)
    requires
        forall|s: &str| call_requires(taken, (s,)),
    ensures
        exists|name: Seq<char>|
            {
                &&& #[trigger] names_download(decoded_url_name(url@), name)
                &&& picked(name, plain_stem(name), plain_extension(name), answers(taken), r@)
            },
        url_path_segments(url@) matches Some(segments) ==> exists|name: Seq<char>|
            {
                &&& #[trigger] names_download(
                    utf8_lossy(unescaped(encode_utf8(segments.last()))),
                    name,
                )
                &&& picked(name, plain_stem(name), plain_extension(name), answers(taken), r@)
            },
        url_path_segments(url@) matches Some(segments) ==> !segments.last().contains('%')
            ==> exists|name: Seq<char>|
            {
                &&& #[trigger] names_download(segments.last(), name)
                &&& picked(name, plain_stem(name), plain_extension(name), answers(taken), r@)
            },
        url_path_segments(url@) is None ==> exists|name: Seq<char>|
            {
                &&& #[trigger] names_download(Seq::empty(), name)
                &&& picked(name, plain_stem(name), plain_extension(name), answers(taken), r@)
            },
        is_safe_name(r@),
{
    let name = download_filename(url);
    proof {
        law_safe_name_is_plain(name@);
        lemma_plain_is_last_component(name@);
    }
    let r = unique_download_path(name.as_str(), taken);
    proof {
        law_picked_name_is_safe(name@, answers(taken), r@);
    }
    r
}

proof fn lemma_last_index(s: Seq<char>, c: char)
    ensures
        -1 <= last_index(s, c) < s.len(),
        last_index(s, c) >= 0 ==> s[last_index(s, c)] == c,
        forall|i: int| last_index(s, c) < i < s.len() ==> #[trigger] s[i] != c,
    decreases s.len(),
{
    if s.len() > 0 && s.last() != c {
        let t = s.drop_last();
        lemma_last_index(t, c);
        assert forall|i: int| last_index(s, c) < i < s.len() implies #[trigger] s[i] != c by {
            if i < t.len() {
                assert(s[i] == t[i]);
            }
        }
    }
}

proof fn lemma_last_index_is(s: Seq<char>, c: char, k: int)
    requires
        -1 <= k < s.len(),
        k >= 0 ==> s[k] == c,
        forall|i: int| k < i < s.len() ==> #[trigger] s[i] != c,
    ensures
        last_index(s, c) == k,
{
    lemma_last_index(s, c);
    let d = last_index(s, c);
    if d < k {
        assert(s[k] != c);
    } else if d > k {
        assert(s[d] != c);
    }
}

proof fn lemma_bare_name_is_last_component(name: Seq<char>)
    requires
        is_usable(name),
        !name.contains('/'),
    ensures
        last_component(name) == Some(name),
{
    assert forall|i: int| -1 < i < name.len() implies #[trigger] name[i] != '/' by {
        assert(name.contains(name[i]));
    }
    lemma_last_index_is(name, '/', -1);
    assert(name.skip(0) =~= name);
}

proof fn lemma_plain_is_last_component(name: Seq<char>)
    requires
        is_plain(name),
    ensures
        is_portable(name),
        last_component(name) == Some(name),
{
    lemma_bare_name_is_last_component(name);
    if name.len() >= 2 {
        assert(name.contains(name[0]));
        assert(name.contains(name[1]));
    }
}

proof fn lemma_last_component(name: Seq<char>)
    ensures
        last_component(name) matches Some(c) ==> is_usable(c) && !c.contains('/') && c.len()
            <= name.len(),
        last_component(name) is None && !name.contains('/') ==> name.len() <= 2,
    decreases name.len(),
{
    let at = last_index(name, '/');
    let c = name.skip(at + 1);
    lemma_last_index(name, '/');
    reveal_strlit(".");
    reveal_strlit("..");
    if c.len() == 0 || c == "."@ {
        if at >= 0 {
            lemma_last_component(name.take(at));
            assert(name.contains(name[at]));
        }
    }
    if c.contains('/') {
        let i = choose|i: int| 0 <= i < c.len() && c[i] == '/';
        assert(name[at + 1 + i] != '/');
    }
    if at >= 0 {
        assert(name.contains(name[at]));
    } else {
        assert(c =~= name);
    }
}

/// A safe name is a single component of a path on every platform, so the
/// download cannot leave the directory.
pub proof fn law_safe_name_is_plain(name: Seq<char>)
    requires
        is_safe_name(name),
    ensures
        is_plain(name),
{
    assert forall|c: char| is_reserved(c) implies !name.contains(c) by {
        if name.contains(c) {
            let i = choose|i: int| 0 <= i < name.len() && name[i] == c;
            assert(!is_reserved(name[i]));
        }
    }
    assert(is_reserved('/') && is_reserved('\\') && is_reserved(':'));
}

/// Whether `answer` speaks of a directory that holds exactly the names in
/// `dir` and does not change while it is asked.
pub open spec fn speaks_of(answer: spec_fn(Seq<char>, bool) -> bool, dir: Set<Seq<char>>) -> bool {
    forall|name: Seq<char>, b: bool| #[trigger] answer(name, b) ==> b == dir.contains(name)
}

/// Whether one of the names to try is free.
pub open spec fn has_free_candidate(
    filename: Seq<char>,
    stem: Seq<char>,
    ext: Option<Seq<char>>,
    dir: Set<Seq<char>>,
) -> bool {
    exists|k: nat|
        k < candidate_count() && !dir.contains(#[trigger] candidate(filename, stem, ext, k))
}

proof fn lemma_numbers_fill(stem: Seq<char>, ext: Option<Seq<char>>, dir: Set<Seq<char>>, k: nat)
    requires
        dir.finite(),
        forall|j: nat| 1 <= j <= k ==> dir.contains(#[trigger] numbered(stem, ext, j)),
    ensures
        k <= dir.len(),
    decreases k,
{
    if k > 0 {
        let last = numbered(stem, ext, k);
        let rest = dir.remove(last);
        assert forall|j: nat| 1 <= j <= k - 1 implies rest.contains(
            #[trigger] numbered(stem, ext, j),
        ) by {
            lemma_numbers_differ(stem, ext, j, k);
        }
        lemma_numbers_fill(stem, ext, rest, (k - 1) as nat);
    }
}

/// However many files a directory holds, one of the names to try is free: there
/// are more names than the counter's largest number.
pub proof fn law_directory_leaves_a_candidate(
    filename: Seq<char>,
    stem: Seq<char>,
    ext: Option<Seq<char>>,
    dir: Set<Seq<char>>,
)
    requires
        dir.finite(),
        dir.len() < u64::MAX,
    ensures
        has_free_candidate(filename, stem, ext, dir),
{
    if !has_free_candidate(filename, stem, ext, dir) {
        let k = u64::MAX as nat;
        assert forall|j: nat| 1 <= j <= k implies dir.contains(
            #[trigger] numbered(stem, ext, j),
        ) by {
            assert(dir.contains(candidate(filename, stem, ext, j)));
        }
        lemma_numbers_fill(stem, ext, dir, k);
    }
}

/// As long as one of the names to try is free, the picked name is free.
pub proof fn law_free_candidate_is_found(
    filename: Seq<char>,
    stem: Seq<char>,
    ext: Option<Seq<char>>,
    answer: spec_fn(Seq<char>, bool) -> bool,
    dir: Set<Seq<char>>,
    r: Seq<char>,
)
    requires
        picked(filename, stem, ext, answer, r),
        speaks_of(answer, dir),
        has_free_candidate(filename, stem, ext, dir),
    ensures
        !dir.contains(r),
{
    let k = choose|k: nat|
        k < candidate_count() && !dir.contains(#[trigger] candidate(filename, stem, ext, k));
    if all_taken(filename, stem, ext, answer, candidate_count()) {
        assert(answer(candidate(filename, stem, ext, k), true));
    }
}

/// A download never overwrites a file, whatever the directory holds.
pub proof fn law_no_overwrite(
    filename: Seq<char>,
    stem: Seq<char>,
    ext: Option<Seq<char>>,
    answer: spec_fn(Seq<char>, bool) -> bool,
    dir: Set<Seq<char>>,
    r: Seq<char>,
)
    requires
        picked(filename, stem, ext, answer, r),
        speaks_of(answer, dir),
        dir.finite(),
        dir.len() < u64::MAX,
    ensures
        !dir.contains(r),
{
    law_directory_leaves_a_candidate(filename, stem, ext, dir);
    law_free_candidate_is_found(filename, stem, ext, answer, dir, r);
}

/// A repeated download never meets an earlier one: once a name was picked and
/// is in the directory, the next pick is another name, and a free one.
pub proof fn law_repeated_downloads_differ(
    filename: Seq<char>,
    stem: Seq<char>,
    ext: Option<Seq<char>>,
    answer: spec_fn(Seq<char>, bool) -> bool,
    dir: Set<Seq<char>>,
    earlier: Seq<char>,
    r: Seq<char>,
)
    requires
        picked(filename, stem, ext, answer, r),
        speaks_of(answer, dir.insert(earlier)),
        dir.finite(),
        dir.insert(earlier).len() < u64::MAX,
    ensures
        r != earlier,
        !dir.contains(r),
{
    law_no_overwrite(filename, stem, ext, answer, dir.insert(earlier), r);
}

/// The first free one of the names to try is picked.
pub proof fn law_first_free_is_picked(
    filename: Seq<char>,
    stem: Seq<char>,
    ext: Option<Seq<char>>,
    answer: spec_fn(Seq<char>, bool) -> bool,
    dir: Set<Seq<char>>,
    r: Seq<char>,
    k: nat,
)
    requires
        picked(filename, stem, ext, answer, r),
        speaks_of(answer, dir),
        k < candidate_count(),
        !dir.contains(candidate(filename, stem, ext, k)),
        forall|j: nat| j < k ==> dir.contains(#[trigger] candidate(filename, stem, ext, j)),
    ensures
        r == candidate(filename, stem, ext, k),
{
    if all_taken(filename, stem, ext, answer, candidate_count()) {
        assert(answer(candidate(filename, stem, ext, k), true));
    } else {
        let i = choose|i: nat|
            #[trigger] first_free(filename, stem, ext, answer, i) && r == candidate(
                filename,
                stem,
                ext,
                i,
            );
        if i > k {
            assert(answer(candidate(filename, stem, ext, k), true));
        } else if i < k {
            assert(dir.contains(candidate(filename, stem, ext, i)));
        }
    }
}

/// A name that is free is kept, without a number.
pub proof fn law_free_name_is_kept(
    filename: Seq<char>,
    stem: Seq<char>,
    ext: Option<Seq<char>>,
    answer: spec_fn(Seq<char>, bool) -> bool,
    dir: Set<Seq<char>>,
    r: Seq<char>,
)
    requires
        picked(filename, stem, ext, answer, r),
        speaks_of(answer, dir),
        !dir.contains(filename),
    ensures
        r == filename,
{
    assert(candidate(filename, stem, ext, 0) == filename);
    if r != filename {
        let k = choose|k: nat|
            #[trigger] first_free(filename, stem, ext, answer, k) && r == candidate(
                filename,
                stem,
                ext,
                k,
            );
        assert(answer(candidate(filename, stem, ext, 0), true));
    }
}

/// What is picked is settled by the names to try and by what the directory
/// holds: asking twice gives the same name.
pub proof fn law_pick_is_settled(
    filename: Seq<char>,
    stem: Seq<char>,
    ext: Option<Seq<char>>,
    answer1: spec_fn(Seq<char>, bool) -> bool,
    answer2: spec_fn(Seq<char>, bool) -> bool,
    dir: Set<Seq<char>>,
    r1: Seq<char>,
    r2: Seq<char>,
)
    requires
        picked(filename, stem, ext, answer1, r1),
        picked(filename, stem, ext, answer2, r2),
        speaks_of(answer1, dir),
        speaks_of(answer2, dir),
    ensures
        r1 == r2,
{
    if exists|k: nat| #[trigger] first_free(filename, stem, ext, answer1, k) {
        let k = choose|k: nat| #[trigger] first_free(filename, stem, ext, answer1, k);
        assert forall|j: nat| j < k implies dir.contains(
            #[trigger] candidate(filename, stem, ext, j),
        ) by {
            assert(answer1(candidate(filename, stem, ext, j), true));
        }
        law_first_free_is_picked(filename, stem, ext, answer1, dir, r1, k);
        law_first_free_is_picked(filename, stem, ext, answer2, dir, r2, k);
    } else if exists|k: nat| #[trigger] first_free(filename, stem, ext, answer2, k) {
        let k = choose|k: nat| #[trigger] first_free(filename, stem, ext, answer2, k);
        assert(answer1(candidate(filename, stem, ext, k), true));
    }
}

proof fn lemma_numbered_len(stem: Seq<char>, ext: Option<Seq<char>>, n: nat)
    ensures
        numbered(stem, ext, n).len() == stem.len() + decimal(n).len() + 3 + match ext {
            Some(e) => 1 + e.len() as int,
            None => 0,
        },
        numbered(stem, ext, n).subrange(stem.len() + 2int, stem.len() + 2int + decimal(n).len())
            == decimal(n),
        numbered(stem, ext, n).take(stem.len() as int) == stem,
{
    reveal_strlit(" (");
    reveal_strlit(")");
    reveal_strlit(").");
    let r = numbered(stem, ext, n);
    assert(r.subrange(stem.len() + 2int, stem.len() + 2int + decimal(n).len()) =~= decimal(n));
    assert(r.take(stem.len() as int) =~= stem);
}

proof fn lemma_numbers_differ(stem: Seq<char>, ext: Option<Seq<char>>, j: nat, k: nat)
    requires
        j != k,
    ensures
        numbered(stem, ext, j) != numbered(stem, ext, k),
{
    lemma_numbered_len(stem, ext, j);
    lemma_numbered_len(stem, ext, k);
    if numbered(stem, ext, j) == numbered(stem, ext, k) {
        law_decimal_is_injective(j, k);
    }
}

proof fn lemma_number_differs_from_name(filename: Seq<char>, n: nat)
    requires
        is_portable(filename),
    ensures
        numbered(stem_of(filename), path_extension(filename), n) != filename,
{
    let r = numbered(stem_of(filename), path_extension(filename), n);
    lemma_last_component(filename);
    lemma_numbered_is_bare(filename, n);
    lemma_numbered_len(stem_of(filename), path_extension(filename), n);
    if r == filename {
        lemma_bare_name_is_last_component(filename);
        lemma_last_index(filename, '.');
    }
}

proof fn lemma_numbered_is_bare(filename: Seq<char>, n: nat)
    ensures
        is_usable(numbered(stem_of(filename), path_extension(filename), n)),
        !numbered(stem_of(filename), path_extension(filename), n).contains('/'),
{
    reveal_strlit(" (");
    reveal_strlit(")");
    reveal_strlit(").");
    reveal_strlit(".");
    reveal_strlit("..");
    reveal_strlit("download");
    let stem = stem_of(filename);
    let ext = path_extension(filename);
    let r = numbered(stem, ext, n);
    let d = decimal(n);
    lemma_decimal_digits(n);
    lemma_last_component(filename);
    if let Some(c) = last_component(filename) {
        lemma_last_index(c, '.');
        assert forall|i: int| 0 <= i < c.len() implies #[trigger] c[i] != '/' by {
            assert(c.contains(c[i]));
        }
    }
    let tail: int = stem.len() + 2int + d.len();
    assert(r.len() > 2);
    assert forall|i: int| 0 <= i < r.len() implies #[trigger] r[i] != '/' by {
        if i < stem.len() {
            assert(r[i] == stem[i]);
        } else if i < stem.len() + 2 {
            assert(r[i] == " ("@[i - stem.len()]);
        } else if i < tail {
            assert(r[i] == d[i - stem.len() - 2]);
        } else if let Some(e) = ext {
            if i < tail + 2 {
                assert(r[i] == ")."@[i - tail]);
            } else {
                assert(r[i] == e[i - tail - 2]);
            }
        } else {
            assert(r[i] == ')');
        }
    }
}

/// The names to try are all different.
pub proof fn law_candidates_differ(filename: Seq<char>, j: nat, k: nat)
    requires
        is_portable(filename),
        j != k,
    ensures
        candidate(filename, stem_of(filename), path_extension(filename), j) != candidate(
            filename,
            stem_of(filename),
            path_extension(filename),
            k,
        ),
{
    if j == 0 {
        lemma_number_differs_from_name(filename, k);
    } else if k == 0 {
        lemma_number_differs_from_name(filename, j);
    } else {
        lemma_numbers_differ(stem_of(filename), path_extension(filename), j, k);
    }
}

/// A numbered name keeps the extension.
pub proof fn law_number_keeps_extension(filename: Seq<char>, n: nat)
    requires
        is_portable(filename),
    ensures
        path_extension(numbered(stem_of(filename), path_extension(filename), n)) == path_extension(
            filename,
        ),
{
    let r = numbered(stem_of(filename), path_extension(filename), n);
    lemma_numbered_is_bare(filename, n);
    lemma_bare_name_is_last_component(r);
    match last_component(filename) {
        Some(c) => {
            lemma_last_component(filename);
            lemma_number_keeps_plain_extension(c, n);
        },
        None => {
            reveal_strlit(".");
            reveal_strlit("..");
            reveal_strlit("download");
            assert forall|i: int| -1 < i < "download"@.len() implies #[trigger] "download"@[i]
                != '.' by {}
            lemma_last_index_is("download"@, '.', -1);
            lemma_number_keeps_plain_extension("download"@, n);
        },
    }
}

proof fn lemma_number_keeps_plain_extension(name: Seq<char>, n: nat)
    requires
        name.len() > 0,
    ensures
        plain_extension(numbered(plain_stem(name), plain_extension(name), n)) == plain_extension(
            name,
        ),
{
    reveal_strlit(" (");
    reveal_strlit(")");
    reveal_strlit(").");
    let stem = plain_stem(name);
    let ext = plain_extension(name);
    let r = numbered(stem, ext, n);
    let d = decimal(n);
    lemma_last_index(name, '.');
    lemma_decimal_digits(n);
    match ext {
        Some(e) => {
            let at: int = stem.len() + 2int + d.len() + 1;
            assert(r[at] == '.');
            assert forall|i: int| at < i < r.len() implies #[trigger] r[i] != '.' by {
                assert(r[i] == e[i - at - 1]);
                assert(r[i] == name[last_index(name, '.') + i - at]);
            }
            lemma_last_index_is(r, '.', at);
            assert(r.skip(at + 1) =~= e);
        },
        None => {
            let at = last_index(name, '.');
            assert forall|i: int| at < i < r.len() implies #[trigger] r[i] != '.' by {
                if i < stem.len() {
                    assert(r[i] == name[i]);
                } else if i >= stem.len() + 2 && i < stem.len() + 2 + d.len() {
                    assert(r[i] == d[i - stem.len() - 2]);
                }
            }
            lemma_last_index_is(r, '.', at);
        },
    }
}

proof fn lemma_numbered_is_safe(filename: Seq<char>, n: nat)
    requires
        is_safe_name(filename),
    ensures
        is_safe_name(numbered(plain_stem(filename), plain_extension(filename), n)),
{
    reveal_strlit(" (");
    reveal_strlit(")");
    reveal_strlit(").");
    reveal_strlit(".");
    reveal_strlit("..");
    let stem = plain_stem(filename);
    let ext = plain_extension(filename);
    let r = numbered(stem, ext, n);
    let d = decimal(n);
    lemma_last_index(filename, '.');
    lemma_decimal_digits(n);
    let tail: int = stem.len() + 2int + d.len();
    assert(r.len() > 2);
    assert(r[0] == filename[0]);
    assert forall|i: int| 0 <= i < r.len() implies !is_reserved(#[trigger] r[i])
        && !is_control_char(r[i]) by {
        if i < stem.len() {
            assert(r[i] == filename[i]);
        } else if i < stem.len() + 2 {
            assert(r[i] == " ("@[i - stem.len()]);
        } else if i < tail {
            assert(r[i] == d[i - stem.len() - 2]);
        } else if let Some(e) = ext {
            if i < tail + 2 {
                assert(r[i] == ")."@[i - tail]);
            } else {
                assert(r[i] == e[i - tail - 2]);
                assert(r[i] == filename[last_index(filename, '.') + 1 + i - tail - 2]);
            }
        } else {
            assert(r[i] == ')');
        }
    }
    match ext {
        Some(e) => {
            if e.len() > 0 {
                assert(r.last() == e.last());
                assert(e.last() == filename.last());
            } else {
                assert(r.last() == '.');
            }
        },
        None => {
            assert(r.last() == ')');
        },
    }
}

/// A numbered name is as safe as the name it was made from.
pub proof fn law_picked_name_is_safe(
    filename: Seq<char>,
    answer: spec_fn(Seq<char>, bool) -> bool,
    r: Seq<char>,
)
    requires
        is_safe_name(filename),
        picked(filename, plain_stem(filename), plain_extension(filename), answer, r),
    ensures
        is_safe_name(r),
{
    if r != filename {
        let k = choose|k: nat|
            #[trigger] first_free(
                filename,
                plain_stem(filename),
                plain_extension(filename),
                answer,
                k,
            ) && r == candidate(filename, plain_stem(filename), plain_extension(filename), k);
        lemma_numbered_is_safe(filename, k);
    }
}

/// The extension is what stands behind the last dot, and the stem what stands
/// before it, however long either is.
pub proof fn law_last_dot_parts_a_name(stem: Seq<char>, e: Seq<char>)
    requires
        stem.len() > 0,
        !e.contains('.'),
    ensures
        plain_stem(stem + "."@ + e) == stem,
        plain_extension(stem + "."@ + e) == Some(e),
{
    reveal_strlit(".");
    let name = stem + "."@ + e;
    let at = stem.len() as int;
    assert(name[at] == '.');
    assert forall|i: int| at < i < name.len() implies #[trigger] name[i] != '.' by {
        assert(name[i] == e[i - at - 1]);
        assert(e.contains(e[i - at - 1]));
    }
    lemma_last_index_is(name, '.', at);
    assert(name.take(at) =~= stem);
    assert(name.skip(at + 1) =~= e);
}

/// A name that has no dot behind its first character is all stem.
pub proof fn law_name_without_dot_is_all_stem(name: Seq<char>)
    requires
        forall|i: int| 1 <= i < name.len() ==> #[trigger] name[i] != '.',
    ensures
        plain_stem(name) == name,
        plain_extension(name) is None,
{
    lemma_last_index(name, '.');
    let at = last_index(name, '.');
    if at >= 1 {
        assert(name[at] != '.');
    }
}

/// A name without a slash that is no dot name is split by itself.
pub proof fn law_bare_name_is_split(name: Seq<char>)
    requires
        name.len() > 0,
        name != "."@,
        name != ".."@,
        !name.contains('/'),
    ensures
        stem_of(name) == plain_stem(name),
        path_extension(name) == plain_extension(name),
{
    lemma_bare_name_is_last_component(name);
}

/// What stands before the last slash does not count, where a component follows
/// it that is no single dot.
pub proof fn law_directories_do_not_count(dir: Seq<char>, component: Seq<char>)
    requires
        component.len() > 0,
        component != "."@,
        !component.contains('/'),
    ensures
        stem_of(dir + "/"@ + component) == stem_of(component),
        path_extension(dir + "/"@ + component) == path_extension(component),
{
    reveal_strlit("/");
    let name = dir + "/"@ + component;
    let at = dir.len() as int;
    assert(name[at] == '/');
    assert forall|i: int| at < i < name.len() implies #[trigger] name[i] != '/' by {
        assert(name[i] == component[i - at - 1]);
        assert(component.contains(component[i - at - 1]));
    }
    lemma_last_index_is(name, '/', at);
    assert(name.skip(at + 1) =~= component);
    assert forall|i: int| -1 < i < component.len() implies #[trigger] component[i] != '/' by {
        assert(component.contains(component[i]));
    }
    lemma_last_index_is(component, '/', -1);
    assert(component.skip(0) =~= component);
}

/// A slash at the end does not count, with or without a single dot behind it.
pub proof fn law_trailing_slash_does_not_count(dir: Seq<char>)
    ensures
        stem_of(dir + "/"@) == stem_of(dir),
        path_extension(dir + "/"@) == path_extension(dir),
        stem_of(dir + "/."@) == stem_of(dir),
        path_extension(dir + "/."@) == path_extension(dir),
{
    reveal_strlit("/");
    reveal_strlit("/.");
    reveal_strlit(".");
    let at = dir.len() as int;
    let bare = dir + "/"@;
    assert(bare[at] == '/');
    lemma_last_index_is(bare, '/', at);
    assert(bare.skip(at + 1).len() == 0);
    assert(bare.take(at) =~= dir);
    let dotted = dir + "/."@;
    assert(dotted[at] == '/');
    assert(dotted[at + 1] == '.');
    lemma_last_index_is(dotted, '/', at);
    assert(dotted.skip(at + 1) =~= "."@);
    assert(dotted.take(at) =~= dir);
}

/// A path that names no file has no extension, and its numbers are put behind
/// `download`.
pub proof fn law_no_file_is_called_download(name: Seq<char>)
    requires
        name.len() == 0 || name == "."@ || name == ".."@,
    ensures
        stem_of(name) == "download"@,
        path_extension(name) is None,
{
    reveal_strlit(".");
    reveal_strlit("..");
    lemma_last_index_is(name, '/', -1);
    assert(name.skip(0) =~= name);
}

/// Every path without a backslash, a drive or a share at its start is portable.
pub proof fn law_what_is_portable(name: Seq<char>)
    ensures
        is_portable(name) <==> {
            &&& !name.contains('\\')
            &&& !(name.len() >= 2 && name[1] == ':' && ('a' <= name[0] <= 'z' || 'A' <= name[0]
                <= 'Z'))
            &&& !(name.len() >= 2 && name[0] == '/' && name[1] == '/')
        },
{
}

/// The names to try are the name itself, and then the numbered names in the
/// order of their numbers.
pub proof fn law_candidates_count_up(
    filename: Seq<char>,
    stem: Seq<char>,
    ext: Option<Seq<char>>,
    n: nat,
)
    ensures
        candidate(filename, stem, ext, 0) == filename,
        n >= 1 ==> candidate(filename, stem, ext, n) == numbered(stem, ext, n),
        numbered(stem, None, n) == stem + " ("@ + decimal(n) + ")"@,
        ext matches Some(e) ==> numbered(stem, ext, n) == stem + " ("@ + decimal(n) + ")."@ + e,
{
}

proof fn lemma_answers_speak<F: Fn(&str) -> bool>(taken: F, dir: Set<Seq<char>>)
    requires
        forall|s: &str, b: bool| #[trigger]
            call_ensures(taken, (s,), b) ==> b == dir.contains(s@),
    ensures
        speaks_of(answers(taken), dir),
{
    let answer = answers(taken);
    assert forall|name: Seq<char>, b: bool| #[trigger] answer(name, b) implies b == dir.contains(
        name,
    ) by {
        let s = choose|s: &str| s@ == name && call_ensures(taken, (s,), b);
        assert(call_ensures(taken, (s,), b));
    }
}

/// Where the directory does not hold the name, it is kept.
pub proof fn law_free_name_is_stored<F: Fn(&str) -> bool>(
    filename: Seq<char>,
    stem: Seq<char>,
    ext: Option<Seq<char>>,
    taken: F,
    dir: Set<Seq<char>>,
    r: Seq<char>,
)
    requires
        forall|s: &str, b: bool| #[trigger]
            call_ensures(taken, (s,), b) ==> b == dir.contains(s@),
        picked(filename, stem, ext, answers(taken), r),
        !dir.contains(filename),
    ensures
        r == filename,
{
    lemma_answers_speak(taken, dir);
    law_free_name_is_kept(filename, stem, ext, answers(taken), dir, r);
}

/// Where the directory holds the name, the number is the least free one: if it
/// holds the names numbered from 1 to `n - 1` and not the one numbered `n`,
/// that one is picked. The number stands before the extension.
pub proof fn law_least_free_number<F: Fn(&str) -> bool>(
    filename: Seq<char>,
    stem: Seq<char>,
    e: Seq<char>,
    taken: F,
    dir: Set<Seq<char>>,
    r: Seq<char>,
    n: nat,
)
    requires
        forall|s: &str, b: bool| #[trigger]
            call_ensures(taken, (s,), b) ==> b == dir.contains(s@),
        picked(filename, stem, Some(e), answers(taken), r),
        1 <= n <= u64::MAX,
        dir.contains(filename),
        forall|j: nat|
            1 <= j < n ==> dir.contains(stem + " ("@ + #[trigger] decimal(j) + ")."@ + e),
        !dir.contains(stem + " ("@ + decimal(n) + ")."@ + e),
    ensures
        r == stem + " ("@ + decimal(n) + ")."@ + e,
{
    lemma_answers_speak(taken, dir);
    assert forall|j: nat| j < n implies dir.contains(
        #[trigger] candidate(filename, stem, Some(e), j),
    ) by {
        if j >= 1 {
            assert(dir.contains(stem + " ("@ + decimal(j) + ")."@ + e));
        }
    }
    law_first_free_is_picked(filename, stem, Some(e), answers(taken), dir, r, n);
}

/// The number is the least free one for a name without extension, too; it then
/// stands at the end.
pub proof fn law_least_free_number_at_end<F: Fn(&str) -> bool>(
    filename: Seq<char>,
    stem: Seq<char>,
    taken: F,
    dir: Set<Seq<char>>,
    r: Seq<char>,
    n: nat,
)
    requires
        forall|s: &str, b: bool| #[trigger]
            call_ensures(taken, (s,), b) ==> b == dir.contains(s@),
        picked(filename, stem, None, answers(taken), r),
        1 <= n <= u64::MAX,
        dir.contains(filename),
        forall|j: nat| 1 <= j < n ==> dir.contains(stem + " ("@ + #[trigger] decimal(j) + ")"@),
        !dir.contains(stem + " ("@ + decimal(n) + ")"@),
    ensures
        r == stem + " ("@ + decimal(n) + ")"@,
{
    lemma_answers_speak(taken, dir);
    assert forall|j: nat| j < n implies dir.contains(
        #[trigger] candidate(filename, stem, None, j),
    ) by {
        if j >= 1 {
            assert(dir.contains(stem + " ("@ + decimal(j) + ")"@));
        }
    }
    law_first_free_is_picked(filename, stem, None, answers(taken), dir, r, n);
}

/// Where a numbered name is picked, the directory holds the name itself and
/// every name with a smaller number, and not the picked one.
pub proof fn law_nothing_smaller_is_free<F: Fn(&str) -> bool>(
    filename: Seq<char>,
    stem: Seq<char>,
    ext: Option<Seq<char>>,
    taken: F,
    dir: Set<Seq<char>>,
    r: Seq<char>,
    n: nat,
)
    requires
        forall|s: &str, b: bool| #[trigger]
            call_ensures(taken, (s,), b) ==> b == dir.contains(s@),
        picked(filename, stem, ext, answers(taken), r),
        dir.finite(),
        dir.len() < u64::MAX,
        r == numbered(stem, ext, n),
        r != filename,
    ensures
        dir.contains(filename),
        forall|j: nat| 1 <= j < n ==> dir.contains(#[trigger] numbered(stem, ext, j)),
        !dir.contains(r),
{
    let answer = answers(taken);
    lemma_answers_speak(taken, dir);
    law_no_overwrite(filename, stem, ext, answer, dir, r);
    let k = choose|k: nat|
        #[trigger] first_free(filename, stem, ext, answer, k) && r == candidate(
            filename,
            stem,
            ext,
            k,
        );
    assert(answer(candidate(filename, stem, ext, 0), true));
    if k != n {
        lemma_numbers_differ(stem, ext, k, n);
    }
    assert forall|j: nat| 1 <= j < n implies dir.contains(#[trigger] numbered(stem, ext, j)) by {
        assert(answer(candidate(filename, stem, ext, j), true));
    }
}

/// Whatever the directory holds, the picked name is not in it.
pub proof fn law_nothing_is_overwritten<F: Fn(&str) -> bool>(
    filename: Seq<char>,
    stem: Seq<char>,
    ext: Option<Seq<char>>,
    taken: F,
    dir: Set<Seq<char>>,
    r: Seq<char>,
)
    requires
        forall|s: &str, b: bool| #[trigger]
            call_ensures(taken, (s,), b) ==> b == dir.contains(s@),
        picked(filename, stem, ext, answers(taken), r),
        dir.finite(),
        dir.len() < u64::MAX,
    ensures
        !dir.contains(r),
{
    lemma_answers_speak(taken, dir);
    law_no_overwrite(filename, stem, ext, answers(taken), dir, r);
}

} // verus!
