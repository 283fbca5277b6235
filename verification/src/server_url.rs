//! Finding the authenticated server address in what `dsh web` prints.
use vstd::prelude::*;

use crate::text::{after_prefix, begins_with, first_word_of, trim};
use crate::text::{first_word, is_blank, is_unbroken, is_white, trim_end, trim_start, trimmed, word_len};
use crate::text::{lemma_trim_end, lemma_trim_start};

verus! {

/// What the line that reports the address begins with.
pub const LINE_PREFIX: &'static str = "dsh web: ";

/// Whether `s` begins like an address of the web.
pub open spec fn is_web_url(s: Seq<char>) -> bool {
    "http://"@.is_prefix_of(s) || "https://"@.is_prefix_of(s)
}

/// The address that a line of output reports: the first word behind the
/// prefix, where that word is an address of the web.
pub open spec fn web_url_in_line(line: Seq<char>) -> Option<Seq<char>> {
    let t = trimmed(line);
    if LINE_PREFIX@.is_prefix_of(t) {
        match first_word(t.skip(LINE_PREFIX@.len() as int)) {
            Some(word) => if is_web_url(word) {
                Some(word)
            } else {
                None
            },
            None => None,
        }
    } else {
        None
    }
}

/// Whether `line` is made of blanks, the prefix, more blanks, `url`, and then
/// nothing or something that white space sets off.
pub open spec fn line_reports(
    line: Seq<char>,
    pre: Seq<char>,
    gap: Seq<char>,
    url: Seq<char>,
    post: Seq<char>,
) -> bool {
    &&& line == pre + LINE_PREFIX@ + gap + url + post
    &&& is_blank(pre)
    &&& is_blank(gap)
    &&& is_unbroken(url)
    &&& is_web_url(url)
    &&& post.len() > 0 ==> is_white(post.first())
}

/// Takes the authenticated address out of one line of the standard output of
/// `dsh web`, such as `dsh web: http://127.0.0.1:3080/?token=abc123`. What
/// follows the address is ignored.
pub fn extract_dsh_web_url_line(line: &str) -> (r: Option<String>)
    ensures
        match r {
            Some(url) => web_url_in_line(line@) == Some(url@),
            None => web_url_in_line(line@) is None,
        },
{
    let line = trim(line);
    match after_prefix(line.as_str(), LINE_PREFIX) {
        Some(rest) => {
            assert(rest@ =~= line@.skip(LINE_PREFIX@.len() as int));
            match first_word_of(rest.as_str()) {
                Some(word) => {
                    if begins_with(word.as_str(), "http://") || begins_with(
                        word.as_str(),
                        "https://",
                    ) {
                        Some(word)
                    } else {
                        None
                    }
                },
                None => None,
            }
        },
        None => None,
    }
}

proof fn lemma_trim_start_blank(a: Seq<char>, b: Seq<char>)
    requires
        is_blank(a),
    ensures
        trim_start(a + b) == trim_start(b),
    decreases a.len(),
{
    if a.len() == 0 {
        assert(a + b =~= b);
    } else {
        assert(is_white((a + b).first()));
        assert((a + b).drop_first() =~= a.drop_first() + b);
        lemma_trim_start_blank(a.drop_first(), b);
    }
}

proof fn lemma_trim_end_behind(a: Seq<char>, b: Seq<char>)
    requires
        a.len() > 0,
        !is_white(a.last()),
    ensures
        trim_end(a + b) == a + trim_end(b),
    decreases b.len(),
{
    if b.len() > 0 && is_white(b.last()) {
        assert((a + b).last() == b.last());
        assert((a + b).drop_last() =~= a + b.drop_last());
        lemma_trim_end_behind(a, b.drop_last());
    } else if b.len() == 0 {
        assert(a + b =~= a);
    } else {
        assert((a + b).last() == b.last());
    }
}

proof fn lemma_word_len_of_word(word: Seq<char>, post: Seq<char>)
    requires
        is_unbroken(word),
        post.len() > 0 ==> is_white(post.first()),
    ensures
        word_len(word + post) == word.len(),
    decreases word.len(),
{
    if word.len() == 0 {
        assert(word + post =~= post);
    } else {
        assert((word + post).first() == word[0]);
        assert((word + post).drop_first() =~= word.drop_first() + post);
        lemma_word_len_of_word(word.drop_first(), post);
    }
}

proof fn lemma_word_len(s: Seq<char>)
    ensures
        word_len(s) <= s.len(),
        is_unbroken(s.take(word_len(s) as int)),
        word_len(s) < s.len() ==> is_white(s[word_len(s) as int]),
    decreases s.len(),
{
    if s.len() > 0 && !is_white(s.first()) {
        let t = s.drop_first();
        lemma_word_len(t);
        let n = word_len(s) as int;
        assert forall|i: int| 0 <= i < n implies !is_white(#[trigger] s.take(n)[i]) by {
            if i > 0 {
                assert(t.take(n - 1)[i - 1] == s[i]);
            }
        }
    }
}

proof fn lemma_web_url_bare_start(url: Seq<char>)
    requires
        is_web_url(url),
    ensures
        url.len() > 0,
        !is_white(url.first()),
{
    reveal_strlit("http://");
    reveal_strlit("https://");
    if "http://"@.is_prefix_of(url) {
        assert(url[0] == "http://"@[0]);
    } else {
        assert(url[0] == "https://"@[0]);
    }
}

/// A line that reports an address yields exactly that address, whatever
/// follows it on the line.
pub proof fn law_reported_url_is_found(
    line: Seq<char>,
    pre: Seq<char>,
    gap: Seq<char>,
    url: Seq<char>,
    post: Seq<char>,
)
    requires
        line_reports(line, pre, gap, url, post),
    ensures
        web_url_in_line(line) == Some(url),
{
    reveal_strlit("dsh web: ");
    lemma_web_url_bare_start(url);
    let body = LINE_PREFIX@ + gap + url;
    assert(line =~= pre + (body + post));
    lemma_trim_start_blank(pre, body + post);
    assert((body + post).first() == 'd');
    assert(trim_start(line) == body + post);
    assert(body.last() == url.last());
    lemma_trim_end_behind(body, post);
    lemma_trim_end(post);
    let tail = trim_end(post);
    let t = trimmed(line);
    assert(t == body + tail);
    let rest = t.skip(LINE_PREFIX@.len() as int);
    assert(t.take(LINE_PREFIX@.len() as int) =~= LINE_PREFIX@);
    assert(rest =~= gap + (url + tail));
    lemma_trim_start_blank(gap, url + tail);
    assert((url + tail).first() == url.first());
    lemma_word_len_of_word(url, tail);
    assert((url + tail).take(url.len() as int) =~= url);
}

proof fn lemma_pieces(
    pre: Seq<char>,
    prefix: Seq<char>,
    gap: Seq<char>,
    url: Seq<char>,
    tail: Seq<char>,
    end: Seq<char>,
)
    ensures
        pre + (prefix + (gap + url + tail)) + end == pre + prefix + gap + url + (tail + end),
{
    assert(pre + (prefix + (gap + url + tail)) + end =~= pre + prefix + gap + url + (tail + end));
}

proof fn lemma_trimmed_pieces(s: Seq<char>)
    ensures
        exists|pre: Seq<char>, end: Seq<char>|
            #![trigger pre + trimmed(s) + end]
            s == pre + trimmed(s) + end && is_blank(pre) && is_blank(end),
{
    let a = trim_start(s);
    let t = trimmed(s);
    lemma_trim_start(s);
    lemma_trim_end(a);
    let pre = s.take(s.len() - a.len());
    let end = a.skip(t.len() as int);
    assert(s =~= pre + t + end);
}

proof fn lemma_first_word_pieces(s: Seq<char>)
    requires
        first_word(s) is Some,
    ensures
        is_unbroken(first_word(s)->0),
        exists|gap: Seq<char>, tail: Seq<char>|
            #![trigger gap + first_word(s)->0 + tail]
            s == gap + first_word(s)->0 + tail && is_blank(gap) && (tail.len() > 0 ==> is_white(
                tail.first(),
            )),
{
    let b = trim_start(s);
    lemma_trim_start(s);
    lemma_word_len(b);
    let w = word_len(b) as int;
    let gap = s.take(s.len() - b.len());
    let tail = b.skip(w);
    assert(s =~= gap + b.take(w) + tail);
}

/// An address that was found stands in the line as a word of its own behind
/// the prefix, and begins like an address of the web.
pub proof fn law_found_url_is_reported(line: Seq<char>)
    requires
        web_url_in_line(line) is Some,
    ensures
        exists|pre: Seq<char>, gap: Seq<char>, post: Seq<char>|
            line_reports(line, pre, gap, web_url_in_line(line)->0, post),
{
    let t = trimmed(line);
    let rest = t.skip(LINE_PREFIX@.len() as int);
    lemma_trimmed_pieces(line);
    lemma_first_word_pieces(rest);
    let url = web_url_in_line(line)->0;
    let (pre, end) = choose|pre: Seq<char>, end: Seq<char>|
        #![trigger pre + t + end]
        line == pre + t + end && is_blank(pre) && is_blank(end);
    let (gap, tail) = choose|gap: Seq<char>, tail: Seq<char>|
        #![trigger gap + url + tail]
        rest == gap + url + tail && is_blank(gap) && (tail.len() > 0 ==> is_white(tail.first()));
    let post = tail + end;
    assert(t =~= LINE_PREFIX@ + rest);
    lemma_pieces(pre, LINE_PREFIX@, gap, url, tail, end);
    assert(is_unbroken(url));
    if post.len() > 0 {
        if tail.len() > 0 {
            assert(post.first() == tail.first());
        } else {
            assert(post.first() == end[0]);
        }
    }
    assert(line_reports(line, pre, gap, url, post));
}

proof fn lemma_address_is_found(
    pre: Seq<char>,
    gap: Seq<char>,
    url: Seq<char>,
    post: Seq<char>,
)
    requires
        forall|i: int| 0 <= i < pre.len() ==> is_white(#[trigger] pre[i]),
        forall|i: int| 0 <= i < gap.len() ==> is_white(#[trigger] gap[i]),
        forall|i: int| 0 <= i < url.len() ==> !is_white(#[trigger] url[i]),
        "http://"@.is_prefix_of(url) || "https://"@.is_prefix_of(url),
        post.len() > 0 ==> is_white(post[0]),
    ensures
        web_url_in_line(pre + "dsh web: "@ + gap + url + post) == Some(url),
{
    let line = pre + "dsh web: "@ + gap + url + post;
    assert(line_reports(line, pre, gap, url, post));
    law_reported_url_is_found(line, pre, gap, url, post);
}

/// Whatever follows the scheme, up to the next white space, is part of the
/// address that is found behind `dsh web: `, for `http`.
pub proof fn law_http_address_is_found(
    pre: Seq<char>,
    gap: Seq<char>,
    tail: Seq<char>,
    post: Seq<char>,
)
    requires
        forall|i: int| 0 <= i < pre.len() ==> is_white(#[trigger] pre[i]),
        forall|i: int| 0 <= i < gap.len() ==> is_white(#[trigger] gap[i]),
        forall|i: int| 0 <= i < tail.len() ==> !is_white(#[trigger] tail[i]),
        post.len() > 0 ==> is_white(post[0]),
    ensures
        web_url_in_line(pre + "dsh web: "@ + gap + ("http://"@ + tail) + post) == Some(
            "http://"@ + tail,
        ),
{
    reveal_strlit("http://");
    let url = "http://"@ + tail;
    assert forall|i: int| 0 <= i < url.len() implies !is_white(#[trigger] url[i]) by {
        if i >= 7 {
            assert(url[i] == tail[i - 7]);
        }
    }
    assert("http://"@.is_prefix_of(url)) by {
        assert(url.take(7) =~= "http://"@);
    }
    lemma_address_is_found(pre, gap, url, post);
}

/// Whatever follows the scheme, up to the next white space, is part of the
/// address that is found behind `dsh web: `, for `https`.
pub proof fn law_https_address_is_found(
    pre: Seq<char>,
    gap: Seq<char>,
    tail: Seq<char>,
    post: Seq<char>,
)
    requires
        forall|i: int| 0 <= i < pre.len() ==> is_white(#[trigger] pre[i]),
        forall|i: int| 0 <= i < gap.len() ==> is_white(#[trigger] gap[i]),
        forall|i: int| 0 <= i < tail.len() ==> !is_white(#[trigger] tail[i]),
        post.len() > 0 ==> is_white(post[0]),
    ensures
        web_url_in_line(pre + "dsh web: "@ + gap + ("https://"@ + tail) + post) == Some(
            "https://"@ + tail,
        ),
{
    reveal_strlit("https://");
    let url = "https://"@ + tail;
    assert forall|i: int| 0 <= i < url.len() implies !is_white(#[trigger] url[i]) by {
        if i >= 8 {
            assert(url[i] == tail[i - 8]);
        }
    }
    assert("https://"@.is_prefix_of(url)) by {
        assert(url.take(8) =~= "https://"@);
    }
    lemma_address_is_found(pre, gap, url, post);
}

/// Nothing else is found: an address that was found begins with a scheme of
/// the web, holds no white space, and stands behind `dsh web: ` with nothing
/// but white space before, between and right behind.
pub proof fn law_only_reported_addresses_are_found(line: Seq<char>, url: Seq<char>)
    requires
        web_url_in_line(line) == Some(url),
    ensures
        "http://"@.is_prefix_of(url) || "https://"@.is_prefix_of(url),
        forall|i: int| 0 <= i < url.len() ==> !is_white(#[trigger] url[i]),
        exists|pre: Seq<char>, gap: Seq<char>, post: Seq<char>|
            {
                &&& line == #[trigger] (pre + "dsh web: "@ + gap + url + post)
                &&& forall|i: int| 0 <= i < pre.len() ==> is_white(#[trigger] pre[i])
                &&& forall|i: int| 0 <= i < gap.len() ==> is_white(#[trigger] gap[i])
                &&& post.len() > 0 ==> is_white(post[0])
            },
{
    law_found_url_is_reported(line);
    let (pre, gap, post) = choose|pre: Seq<char>, gap: Seq<char>, post: Seq<char>|
        line_reports(line, pre, gap, url, post);
    assert(line_reports(line, pre, gap, url, post));
    assert(line == pre + "dsh web: "@ + gap + url + post);
}

} // verus!
