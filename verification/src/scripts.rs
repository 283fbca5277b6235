//! The scripts that run inside the window, and the escaping of the text that
//! is put into them.
use vstd::prelude::*;

use crate::text::{chars_of, decimal, decimal_string};

verus! {

/// Height, in CSS pixels, of the draggable strip at the top of the window.
/// Below it the page behaves normally.
pub const DRAG_REGION_HEIGHT_PX: u32 = 15;

/// The drag script up to the height of the strip.
pub const DRAG_SCRIPT_HEAD: &'static str = r#"
    (function () {
        var DRAG_REGION_HEIGHT = "#;

/// The drag script behind the height of the strip.
pub const DRAG_SCRIPT_TAIL: &'static str = r#"; // px from the top of the window
        var SKIP_TAGS = { A: 1, BUTTON: 1, INPUT: 1, TEXTAREA: 1, SELECT: 1, OPTION: 1 };

        document.addEventListener('mousedown', function (event) {
            if (event.button !== 0) return; // left click only
            if (event.clientY >= DRAG_REGION_HEIGHT) return; // only the top strip drags the window

            var target = event.target;
            if (!target || SKIP_TAGS[target.tagName]) return;

            var classList = target.className;
            if (typeof classList === 'string' && classList.split(' ').indexOf('no-drag') !== -1) {
                return;
            }
            var region = window.getComputedStyle(target).getPropertyValue('-webkit-app-region');
            if (region && region.trim() === 'no-drag') return;

            var tauriWindow = window.__TAURI__ && window.__TAURI__.window;
            if (tauriWindow && typeof tauriWindow.getCurrentWindow === 'function') {
                tauriWindow.getCurrentWindow().startDragging();
            }
        });
    })();
    "#;

/// The script that closes the window on Ctrl+Q.
pub const CLOSE_SHORTCUT_SCRIPT: &'static str = r#"
    (function () {
        document.addEventListener('keydown', function (event) {
            if (event.defaultPrevented) return; // the page already handled it
            if (!event.ctrlKey || event.altKey || event.metaKey) return;
            if (event.code !== 'KeyQ') return; // physical key: layout- and CapsLock-independent
            var tauriWindow = window.__TAURI__ && window.__TAURI__.window;
            if (tauriWindow && typeof tauriWindow.getCurrentWindow === 'function') {
                event.preventDefault();
                tauriWindow.getCurrentWindow().close();
            }
        });
    })();
    "#;

/// The error page script up to the heading.
pub const ERROR_PAGE_HEAD: &'static str = r#"(function () {
            document.body.style.cssText = 'margin:0;background:#16171a;color:#d7d7db;font-family:system-ui,sans-serif;display:flex;align-items:center;justify-content:center;height:100vh;';
            document.body.innerHTML = '<div style="max-width:660px;padding:0 32px;">'
                + '<h1 style="font-size:19px;font-weight:600;color:#ff8080;margin:0 0 14px;">"#;

/// The error page script between the heading and the details.
pub const ERROR_PAGE_MIDDLE: &'static str = r#"</h1>'
                + '<pre style="white-space:pre-wrap;font-size:13px;line-height:1.6;margin:0;color:#c7c7cc;">"#;

/// The error page script behind the details.
pub const ERROR_PAGE_TAIL: &'static str = r#"</pre>'
                + '<p style="font-size:12px;color:#77777d;margin-top:22px;">You can close this window.</p>'
                + '</div>';
        })();"#;

/// Makes only the top `DRAG_REGION_HEIGHT_PX` pixels of the frameless window
/// draggable, as a title bar would be. A press on a control inside the strip,
/// or on an element that opts out, starts no drag.
///
/// It has to run before every page load: the window navigates from a blank
/// page to the server, which drops what was installed on the first page.
pub fn drag_region_script() -> (r: String)
    ensures
        r@ == DRAG_SCRIPT_HEAD@ + decimal(DRAG_REGION_HEIGHT_PX as nat) + DRAG_SCRIPT_TAIL@,
{
    let mut r = DRAG_SCRIPT_HEAD.to_string();
    r.append(decimal_string(DRAG_REGION_HEIGHT_PX as u64).as_str());
    r.append(DRAG_SCRIPT_TAIL);
    r
}

/// Makes Ctrl+Q close the window. The listener lives in the page, so it only
/// fires while this window has the keyboard focus.
pub fn close_shortcut_script() -> (r: String)
    ensures
        r@ == CLOSE_SHORTCUT_SCRIPT@,
{
    CLOSE_SHORTCUT_SCRIPT.to_string()
}

/// The script that sends the page to `url`. The address is put in as it is.
pub open spec fn replace_script(url: Seq<char>) -> Seq<char> {
    "window.location.replace('"@ + url + "')"@
}

/// The script that sends the page to `url`.
pub fn location_replace_script(url: &str) -> (r: String)
    ensures
        r@ == replace_script(url@),
        r@ == "window.location.replace('"@ + url@ + "')"@,
{
    let mut r = "window.location.replace('".to_string();
    r.append(url);
    r.append("')");
    r
}

/// What stands for `c` in markup.
pub open spec fn html_piece(c: char) -> Seq<char> {
    if c == '&' {
        seq!['&', 'a', 'm', 'p', ';']
    } else if c == '<' {
        seq!['&', 'l', 't', ';']
    } else if c == '>' {
        seq!['&', 'g', 't', ';']
    } else {
        seq![c]
    }
}

/// `s` as markup that shows `s`.
pub open spec fn html_escaped(s: Seq<char>) -> Seq<char>
    decreases s.len(),
{
    if s.len() == 0 {
        s
    } else {
        html_piece(s.first()) + html_escaped(s.drop_first())
    }
}

/// What stands for the first character of `s` in a single-quoted script
/// string. A dollar sign is escaped where it would open a placeholder, and a
/// carriage return is left out.
pub open spec fn js_piece(s: Seq<char>) -> Seq<char> {
    let c = s.first();
    if c == '\\' || c == '`' || c == '\'' {
        seq!['\\', c]
    } else if c == '$' && s.len() > 1 && s[1] == '{' {
        seq!['\\', c]
    } else if c == '\r' {
        seq![]
    } else if c == '\n' {
        seq!['\\', 'n']
    } else {
        seq![c]
    }
}

/// `s` as the inside of a single-quoted script string.
pub open spec fn js_escaped(s: Seq<char>) -> Seq<char>
    decreases s.len(),
{
    if s.len() == 0 {
        s
    } else {
        js_piece(s) + js_escaped(s.drop_first())
    }
}

/// `s` as the inside of a single-quoted script string whose value is assigned
/// as markup.
pub open spec fn page_escaped(s: Seq<char>) -> Seq<char> {
    js_escaped(html_escaped(s))
}

/// Escapes `s` for markup.
pub fn escape_html(s: &str) -> (r: String)
    ensures
        r@ == html_escaped(s@),
{
    let chars = chars_of(s);
    let mut r = String::new();
    let mut i: usize = 0;
    assert(chars@.skip(0) =~= chars@);
    while i < chars.len()
        invariant
            i <= chars@.len(),
            r@ + html_escaped(chars@.skip(i as int)) == html_escaped(chars@),
        decreases chars@.len() - i,
    {
        let ghost before = r@;
        let ghost rest = chars@.skip(i as int);
        let c: char = chars[i];
        proof {
            reveal_strlit("&amp;");
            reveal_strlit("&lt;");
            reveal_strlit("&gt;");
        }
        if c == '&' {
            r.append("&amp;");
        } else if c == '<' {
            r.append("&lt;");
        } else if c == '>' {
            r.append("&gt;");
        } else {
            r.push(c);
        }
        assert(r@ =~= before + html_piece(c));
        assert(rest.drop_first() =~= chars@.skip(i + 1));
        assert(r@ + html_escaped(rest.drop_first()) =~= before + html_escaped(rest));
        i = i + 1;
    }
    assert(r@ =~= r@ + html_escaped(chars@.skip(i as int)));
    r
}

/// Escapes `s` for a single-quoted script string.
pub fn escape_js(s: &str) -> (r: String)
    ensures
        r@ == js_escaped(s@),
{
    let chars = chars_of(s);
    let mut r = String::new();
    let mut i: usize = 0;
    assert(chars@.skip(0) =~= chars@);
    while i < chars.len()
        invariant
            i <= chars@.len(),
            r@ + js_escaped(chars@.skip(i as int)) == js_escaped(chars@),
        decreases chars@.len() - i,
    {
        let ghost before = r@;
        let ghost rest = chars@.skip(i as int);
        let c: char = chars[i];
        if c == '\\' || c == '`' || c == '\'' {
            r.push('\\');
            r.push(c);
        } else if c == '$' && i + 1 < chars.len() && chars[i + 1] == '{' {
            r.push('\\');
            r.push(c);
        } else if c == '\n' {
            r.push('\\');
            r.push('n');
        } else if c != '\r' {
            r.push(c);
        }
        assert(r@ =~= before + js_piece(rest));
        assert(rest.drop_first() =~= chars@.skip(i + 1));
        assert(r@ + js_escaped(rest.drop_first()) =~= before + js_escaped(rest));
        i = i + 1;
    }
    assert(r@ =~= r@ + js_escaped(chars@.skip(i as int)));
    r
}

/// Escapes error text for the page: for markup, and for the script string that
/// carries the markup.
pub fn escape_page_text(s: &str) -> (r: String)
    ensures
        r@ == page_escaped(s@),
{
    escape_js(escape_html(s).as_str())
}

/// The script that renders a page about a fatal error into the window.
pub fn error_page_script(heading: &str, details: &str) -> (r: String)
    ensures
        r@ == ERROR_PAGE_HEAD@ + page_escaped(heading@) + ERROR_PAGE_MIDDLE@ + page_escaped(
            details@,
        ) + ERROR_PAGE_TAIL@,
{
    let mut r = ERROR_PAGE_HEAD.to_string();
    r.append(escape_page_text(heading).as_str());
    r.append(ERROR_PAGE_MIDDLE);
    r.append(escape_page_text(details).as_str());
    r.append(ERROR_PAGE_TAIL);
    r
}

/// The value of a single-quoted script string with the inside `body`. `None`
/// where a quote or a line break ends the string early, where a backslash is
/// left over at the end, or where an escape other than those used here occurs.
pub open spec fn js_value(body: Seq<char>) -> Option<Seq<char>>
    decreases body.len(),
{
    if body.len() == 0 {
        Some(body)
    } else if body.first() == '\'' || body.first() == '\n' || body.first() == '\r' {
        None
    } else if body.first() == '\\' {
        if body.len() == 1 {
            None
        } else {
            let c = body[1];
            let rest = js_value(body.skip(2));
            if rest is None {
                None
            } else if c == 'n' {
                Some(seq!['\n'] + rest->0)
            } else if c == '\\' || c == '`' || c == '\'' || c == '$' {
                Some(seq![c] + rest->0)
            } else {
                None
            }
        }
    } else {
        match js_value(body.drop_first()) {
            Some(rest) => Some(seq![body.first()] + rest),
            None => None,
        }
    }
}

/// The text that `markup` shows. `None` where it holds a tag bracket, or an
/// ampersand that begins none of the three entities used here.
pub open spec fn shown_text(markup: Seq<char>) -> Option<Seq<char>>
    decreases markup.len(),
{
    if markup.len() == 0 {
        Some(markup)
    } else if html_piece('&').is_prefix_of(markup) {
        prepended('&', shown_text(markup.skip(5)))
    } else if html_piece('<').is_prefix_of(markup) {
        prepended('<', shown_text(markup.skip(4)))
    } else if html_piece('>').is_prefix_of(markup) {
        prepended('>', shown_text(markup.skip(4)))
    } else if markup.first() == '&' || markup.first() == '<' || markup.first() == '>' {
        None
    } else {
        prepended(markup.first(), shown_text(markup.drop_first()))
    }
}

/// `c` in front of the text, where there is one.
pub open spec fn prepended(c: char, text: Option<Seq<char>>) -> Option<Seq<char>> {
    match text {
        Some(t) => Some(seq![c] + t),
        None => None,
    }
}

/// `s` without its carriage returns.
pub open spec fn without_cr(s: Seq<char>) -> Seq<char>
    decreases s.len(),
{
    if s.len() == 0 {
        s
    } else if s.first() == '\r' {
        without_cr(s.drop_first())
    } else {
        seq![s.first()] + without_cr(s.drop_first())
    }
}

/// Escaped text never ends or breaks the script string it is put into: the
/// string runs to its own closing quote, and its value is the text without
/// carriage returns.
pub proof fn law_js_escape_round_trip(s: Seq<char>)
    ensures
        js_value(js_escaped(s)) == Some(without_cr(s)),
    decreases s.len(),
{
    if s.len() > 0 {
        let c = s.first();
        let piece = js_piece(s);
        let rest = js_escaped(s.drop_first());
        let body = js_escaped(s);
        law_js_escape_round_trip(s.drop_first());
        if piece.len() == 0 {
            assert(body =~= rest);
        } else if piece.len() == 1 {
            assert(body.drop_first() =~= rest);
        } else {
            assert(piece.len() == 2);
            assert(body.skip(2) =~= rest);
        }
    }
}

/// Escaped text never becomes markup: it holds no tag bracket, and what it
/// shows is the text itself.
pub proof fn law_html_escape_round_trip(s: Seq<char>)
    ensures
        shown_text(html_escaped(s)) == Some(s),
        !html_escaped(s).contains('<'),
        !html_escaped(s).contains('>'),
    decreases s.len(),
{
    if s.len() > 0 {
        let c = s.first();
        let piece = html_piece(c);
        let rest = html_escaped(s.drop_first());
        let markup = html_escaped(s);
        law_html_escape_round_trip(s.drop_first());
        assert(markup.skip(piece.len() as int) =~= rest);
        assert(markup.take(piece.len() as int) =~= piece);
        assert(s =~= seq![c] + s.drop_first());
        assert forall|i: int| 0 <= i < markup.len() implies markup[i] != '<' && markup[i] != '>' by {
            if i < piece.len() {
                assert(markup[i] == piece[i]);
            } else {
                assert(markup[i] == rest[i - piece.len()]);
            }
        }
        if c == '&' {
            assert(html_piece('&').is_prefix_of(markup));
        } else if c == '<' {
            assert(html_piece('<').is_prefix_of(markup));
            assert(markup[1] == 'l');
        } else if c == '>' {
            assert(html_piece('>').is_prefix_of(markup));
            assert(markup[1] == 'g');
        } else {
            assert(markup.first() == c);
            assert(markup.drop_first() =~= rest);
        }
    }
}

proof fn lemma_without_cr_add(a: Seq<char>, b: Seq<char>)
    ensures
        without_cr(a + b) == without_cr(a) + without_cr(b),
    decreases a.len(),
{
    if a.len() == 0 {
        assert(a + b =~= b);
        assert(without_cr(a) + without_cr(b) =~= without_cr(b));
    } else {
        assert((a + b).first() == a.first());
        assert((a + b).drop_first() =~= a.drop_first() + b);
        lemma_without_cr_add(a.drop_first(), b);
        assert(without_cr(a + b) =~= without_cr(a) + without_cr(b));
    }
}

proof fn lemma_without_cr_html(s: Seq<char>)
    ensures
        without_cr(html_escaped(s)) == html_escaped(without_cr(s)),
    decreases s.len(),
{
    if s.len() > 0 {
        let c = s.first();
        let piece = html_piece(c);
        lemma_without_cr_add(piece, html_escaped(s.drop_first()));
        lemma_without_cr_html(s.drop_first());
        if c == '\r' {
            reveal_with_fuel(without_cr, 2);
            assert(without_cr(piece) =~= seq![]);
            assert(without_cr(html_escaped(s)) =~= html_escaped(without_cr(s)));
        } else {
            lemma_piece_keeps(c);
            let t = without_cr(s);
            assert(t.first() == c);
            assert(t.drop_first() =~= without_cr(s.drop_first()));
        }
    }
}

proof fn lemma_piece_keeps(c: char)
    requires
        c != '\r',
    ensures
        without_cr(html_piece(c)) == html_piece(c),
{
    lemma_no_cr(html_piece(c));
}

proof fn lemma_no_cr(s: Seq<char>)
    requires
        forall|i: int| 0 <= i < s.len() ==> #[trigger] s[i] != '\r',
    ensures
        without_cr(s) == s,
    decreases s.len(),
{
    if s.len() > 0 {
        assert(s.first() == s[0]);
        assert forall|i: int| 0 <= i < s.drop_first().len() implies #[trigger] s.drop_first()[i]
            != '\r' by {
            assert(s.drop_first()[i] == s[i + 1]);
        }
        lemma_no_cr(s.drop_first());
        assert(without_cr(s) =~= s);
    }
}

/// Error text can neither break the script that carries it nor inject markup
/// into the page: the script string has a value, that value holds no tag
/// bracket, and what it shows is the text without carriage returns.
pub proof fn law_error_text_is_inert(s: Seq<char>)
    ensures
        js_value(page_escaped(s)) is Some,
        !js_value(page_escaped(s))->0.contains('<'),
        !js_value(page_escaped(s))->0.contains('>'),
        shown_text(js_value(page_escaped(s))->0) == Some(without_cr(s)),
{
    law_js_escape_round_trip(html_escaped(s));
    lemma_without_cr_html(s);
    law_html_escape_round_trip(without_cr(s));
}

/// Text is escaped for markup character by character: three characters get an
/// entity, and every other stands for itself.
pub proof fn law_html_escape_of_one(c: char)
    ensures
        html_escaped(seq!['&']) == "&amp;"@,
        html_escaped(seq!['<']) == "&lt;"@,
        html_escaped(seq!['>']) == "&gt;"@,
        c != '&' && c != '<' && c != '>' ==> html_escaped(seq![c]) == seq![c],
        html_escaped(seq![]) == Seq::<char>::empty(),
{
    reveal_with_fuel(html_escaped, 2);
    reveal_strlit("&amp;");
    reveal_strlit("&lt;");
    reveal_strlit("&gt;");
    lemma_html_escape_of_one('&');
    lemma_html_escape_of_one('<');
    lemma_html_escape_of_one('>');
    lemma_html_escape_of_one(c);
    assert(html_piece('&') =~= "&amp;"@);
    assert(html_piece('<') =~= "&lt;"@);
    assert(html_piece('>') =~= "&gt;"@);
}

proof fn lemma_html_escape_of_one(c: char)
    ensures
        html_escaped(seq![c]) == html_piece(c),
{
    reveal_with_fuel(html_escaped, 2);
    assert(seq![c].drop_first() =~= Seq::<char>::empty());
    assert(html_escaped(seq![c]) =~= html_piece(c));
}

/// Two texts are escaped for markup one after the other.
pub proof fn law_html_escape_of_two(a: Seq<char>, b: Seq<char>)
    ensures
        html_escaped(a + b) == html_escaped(a) + html_escaped(b),
    decreases a.len(),
{
    if a.len() == 0 {
        assert(a + b =~= b);
        assert(html_escaped(a) + html_escaped(b) =~= html_escaped(b));
    } else {
        assert((a + b).first() == a.first());
        assert((a + b).drop_first() =~= a.drop_first() + b);
        law_html_escape_of_two(a.drop_first(), b);
        assert(html_escaped(a + b) =~= html_escaped(a) + html_escaped(b));
    }
}

proof fn lemma_js_escape_of_one(c: char)
    ensures
        js_escaped(seq![c]) == js_piece(seq![c]),
{
    reveal_with_fuel(js_escaped, 2);
    assert(seq![c].drop_first() =~= Seq::<char>::empty());
    assert(js_escaped(seq![c]) =~= js_piece(seq![c]));
}

/// A character by itself is escaped for a script string by a backslash where it
/// is a backslash, a backtick or a quote. A line break becomes a backslash and
/// an `n`, a carriage return is left out, and every other stands for itself.
pub proof fn law_js_escape_of_one(c: char)
    ensures
        c == '\\' || c == '`' || c == '\'' ==> js_escaped(seq![c]) == seq!['\\', c],
        js_escaped(seq!['\n']) == seq!['\\', 'n'],
        js_escaped(seq!['\r']) == Seq::<char>::empty(),
        c != '\\' && c != '`' && c != '\'' && c != '\n' && c != '\r' ==> js_escaped(seq![c])
            == seq![c],
        js_escaped(seq![]) == Seq::<char>::empty(),
{
    lemma_js_escape_of_one(c);
    lemma_js_escape_of_one('\n');
    lemma_js_escape_of_one('\r');
}

/// Two texts are escaped for a script string one after the other, unless a
/// placeholder opens where they meet.
pub proof fn law_js_escape_of_two(a: Seq<char>, b: Seq<char>)
    requires
        !(a.len() > 0 && b.len() > 0 && a[a.len() - 1] == '$' && b[0] == '{'),
    ensures
        js_escaped(a + b) == js_escaped(a) + js_escaped(b),
    decreases a.len(),
{
    if a.len() == 0 {
        assert(a + b =~= b);
        assert(js_escaped(a) + js_escaped(b) =~= js_escaped(b));
    } else {
        let rest = a.drop_first();
        assert((a + b).first() == a.first());
        assert((a + b).drop_first() =~= rest + b);
        if rest.len() > 0 {
            assert(rest[rest.len() - 1] == a[a.len() - 1]);
            assert((a + b)[1] == a[1]);
        } else if b.len() > 0 {
            assert((a + b)[1] == b[0]);
        }
        law_js_escape_of_two(rest, b);
        assert(js_piece(a + b) == js_piece(a));
        assert(js_escaped(a + b) =~= js_escaped(a) + js_escaped(b));
    }
}

/// A dollar sign that opens a placeholder gets a backslash, wherever it stands.
pub proof fn law_js_placeholder_is_escaped(a: Seq<char>, b: Seq<char>)
    ensures
        js_escaped(a + seq!['$', '{'] + b) == js_escaped(a) + seq!['\\', '$', '{'] + js_escaped(b),
{
    let open = seq!['$', '{'];
    let tail = open + b;
    assert(a + open + b =~= a + tail);
    law_js_escape_of_two(a, tail);
    assert(tail.drop_first() =~= seq!['{'] + b);
    law_js_escape_of_two(seq!['{'], b);
    lemma_js_escape_of_one('{');
    assert(js_piece(tail) == seq!['\\', '$']);
    assert(js_escaped(tail) == js_piece(tail) + js_escaped(tail.drop_first()));
    assert(js_escaped(a + open + b) =~= js_escaped(a) + seq!['\\', '$', '{'] + js_escaped(b));
}

proof fn lemma_html_escape_meets(s: Seq<char>)
    requires
        s.len() > 0,
    ensures
        html_escaped(s).len() > 0,
        html_escaped(s)[0] == '{' <==> s[0] == '{',
        html_escaped(s)[html_escaped(s).len() - 1] == '$' <==> s[s.len() - 1] == '$',
{
    let head = s.drop_last();
    let c = s[s.len() - 1];
    assert(s =~= head + seq![c]);
    law_html_escape_of_two(head, seq![c]);
    lemma_html_escape_of_one(c);
    let e = html_escaped(s);
    let piece = html_piece(c);
    assert(e[e.len() - 1] == piece[piece.len() - 1]);
    assert(e[0] == html_piece(s[0])[0]);
}

/// On the page, two pieces of error text are escaped one after the other,
/// unless a placeholder opens where they meet.
pub proof fn law_page_escape_of_two(a: Seq<char>, b: Seq<char>)
    requires
        !(a.len() > 0 && b.len() > 0 && a[a.len() - 1] == '$' && b[0] == '{'),
    ensures
        page_escaped(a + b) == page_escaped(a) + page_escaped(b),
{
    law_html_escape_of_two(a, b);
    if a.len() > 0 && b.len() > 0 {
        lemma_html_escape_meets(a);
        lemma_html_escape_meets(b);
    }
    law_js_escape_of_two(html_escaped(a), html_escaped(b));
}

/// What stands on the page for one character of error text.
pub proof fn law_page_escape_of_one(c: char)
    ensures
        page_escaped(seq!['&']) == "&amp;"@,
        page_escaped(seq!['<']) == "&lt;"@,
        page_escaped(seq!['>']) == "&gt;"@,
        c == '\\' || c == '`' || c == '\'' ==> page_escaped(seq![c]) == seq!['\\', c],
        page_escaped(seq!['\n']) == seq!['\\', 'n'],
        page_escaped(seq!['\r']) == Seq::<char>::empty(),
        c != '&' && c != '<' && c != '>' && c != '\\' && c != '`' && c != '\'' && c != '\n' && c
            != '\r' ==> page_escaped(seq![c]) == seq![c],
        page_escaped(seq![]) == Seq::<char>::empty(),
{
    reveal_strlit("&amp;");
    reveal_strlit("&lt;");
    reveal_strlit("&gt;");
    law_html_escape_of_one(c);
    law_html_escape_of_one('\n');
    law_html_escape_of_one('\r');
    law_js_escape_of_one(c);
    lemma_js_escape_of_plain("&amp;"@);
    lemma_js_escape_of_plain("&lt;"@);
    lemma_js_escape_of_plain("&gt;"@);
}

proof fn lemma_js_escape_of_plain(s: Seq<char>)
    requires
        forall|i: int|
            0 <= i < s.len() ==> {
                let c = #[trigger] s[i];
                c != '\\' && c != '`' && c != '\'' && c != '\n' && c != '\r' && c != '$'
            },
    ensures
        js_escaped(s) == s,
    decreases s.len(),
{
    if s.len() > 0 {
        let rest = s.drop_first();
        assert forall|i: int| 0 <= i < rest.len() implies {
            let c = #[trigger] rest[i];
            c != '\\' && c != '`' && c != '\'' && c != '\n' && c != '\r' && c != '$'
        } by {
            assert(rest[i] == s[i + 1]);
        }
        lemma_js_escape_of_plain(rest);
        assert(s[0] == s.first());
        assert(js_escaped(s) =~= s);
    }
}

/// On the page, a dollar sign that opens a placeholder gets a backslash,
/// wherever it stands.
pub proof fn law_page_placeholder_is_escaped(a: Seq<char>, b: Seq<char>)
    ensures
        page_escaped(a + seq!['$', '{'] + b) == page_escaped(a) + seq!['\\', '$', '{']
            + page_escaped(b),
{
    let open = seq!['$', '{'];
    law_html_escape_of_two(a + open, b);
    law_html_escape_of_two(a, open);
    assert(open =~= seq!['$'] + seq!['{']);
    law_html_escape_of_two(seq!['$'], seq!['{']);
    lemma_html_escape_of_one('$');
    lemma_html_escape_of_one('{');
    assert(html_escaped(open) =~= open);
    law_js_placeholder_is_escaped(html_escaped(a), html_escaped(b));
}

/// The script that sends the page to an address holds the address as it is,
/// between the call and its end.
pub proof fn law_address_is_put_in_whole(url: Seq<char>)
    ensures
        replace_script(url) == "window.location.replace('"@ + url + "')"@,
{
}

} // verus!
