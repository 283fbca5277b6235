use deepseek_harness::scripts::{
    close_shortcut_script, drag_region_script, error_page_script, escape_html, escape_js,
    escape_page_text, location_replace_script, DRAG_REGION_HEIGHT_PX,
};

#[test]
fn drag_script_is_exact() {
    assert_eq!(DRAG_REGION_HEIGHT_PX, 15);
    let expected = r#"
    (function () {
        var DRAG_REGION_HEIGHT = 15; // px from the top of the window
        var SKIP_TAGS = { A: 1, BUTTON: 1, INPUT: 1, TEXTAREA: 1, SELECT: 1, OPTION: 1 };

        document.addEventListener('mousedown', function (event) {
            if (event.button !== 0) return; // left click only
            if (event.clientY >= DRAG_REGION_HEIGHT) return; // only the top strip drags the window

            var target = event.target;
            if (!target || SKIP_TAGS[target.tagName]) return;

            var classList = target.className;
            if (typeof classList === 'string' && classList.split(' ').indexOf('no-drag') !== -1) {
                return;
            }
            var region = window.getComputedStyle(target).getPropertyValue('-webkit-app-region');
            if (region && region.trim() === 'no-drag') return;

            var tauriWindow = window.__TAURI__ && window.__TAURI__.window;
            if (tauriWindow && typeof tauriWindow.getCurrentWindow === 'function') {
                tauriWindow.getCurrentWindow().startDragging();
            }
        });
    })();
    "#;
    assert_eq!(drag_region_script(), expected);
}

#[test]
fn only_the_rows_of_the_strip_drag() {
    let script = drag_region_script();
    assert!(script.contains("var DRAG_REGION_HEIGHT = 15;"));
    assert!(script.contains("if (event.clientY >= DRAG_REGION_HEIGHT) return;"));
}

#[test]
fn close_script_is_exact() {
    let expected = r#"
    (function () {
        document.addEventListener('keydown', function (event) {
            if (event.defaultPrevented) return; // the page already handled it
            if (!event.ctrlKey || event.altKey || event.metaKey) return;
            if (event.code !== 'KeyQ') return; // physical key: layout- and CapsLock-independent
            var tauriWindow = window.__TAURI__ && window.__TAURI__.window;
            if (tauriWindow && typeof tauriWindow.getCurrentWindow === 'function') {
                event.preventDefault();
                tauriWindow.getCurrentWindow().close();
            }
        });
    })();
    "#;
    assert_eq!(close_shortcut_script(), expected);
}

#[test]
fn error_page_is_exact() {
    let expected = r#"(function () {
            document.body.style.cssText = 'margin:0;background:#16171a;color:#d7d7db;font-family:system-ui,sans-serif;display:flex;align-items:center;justify-content:center;height:100vh;';
            document.body.innerHTML = '<div style="max-width:660px;padding:0 32px;">'
                + '<h1 style="font-size:19px;font-weight:600;color:#ff8080;margin:0 0 14px;">It\'s &lt;b&gt;</h1>'
                + '<pre style="white-space:pre-wrap;font-size:13px;line-height:1.6;margin:0;color:#c7c7cc;">a &amp; b\n\`c\` \\ \${d} $e</pre>'
                + '<p style="font-size:12px;color:#77777d;margin-top:22px;">You can close this window.</p>'
                + '</div>';
        })();"#;
    let page = error_page_script("It's <b>", "a & b\r\n`c` \\ ${d} $e");
    assert_eq!(page, expected);
}

#[test]
fn html_escapes() {
    assert_eq!(escape_html(""), "");
    assert_eq!(escape_html("a<b>&c"), "a&lt;b&gt;&amp;c");
    assert_eq!(escape_html("&lt;"), "&amp;lt;");
    assert_eq!(escape_html("'\"\n"), "'\"\n");
}

#[test]
fn js_escapes() {
    assert_eq!(escape_js(""), "");
    assert_eq!(escape_js("it's"), "it\\'s");
    assert_eq!(escape_js("a\\b"), "a\\\\b");
    assert_eq!(escape_js("`x`"), "\\`x\\`");
    assert_eq!(escape_js("${x}"), "\\${x}");
    assert_eq!(escape_js("$x $"), "$x $");
    assert_eq!(escape_js("a\r\nb\nc\r"), "a\\nb\\nc");
    assert_eq!(escape_js("$\r{"), "${");
}

#[test]
fn page_text_is_escaped_as_by_successive_replacements() {
    let texts = [
        "plain",
        "</h1><script>alert('x')</script>",
        "C:\\dir\\file: No such file\r\n",
        "${a}$${b}`&amp;`'\\'",
        "\u{2028} \u{e9} \u{1f600} \\n",
    ];
    for s in texts {
        let expected = s
            .replace('&', "&amp;")
            .replace('<', "&lt;")
            .replace('>', "&gt;")
            .replace('\\', "\\\\")
            .replace('`', "\\`")
            .replace("${", "\\${")
            .replace('\'', "\\'")
            .replace('\r', "")
            .replace('\n', "\\n");
        assert_eq!(escape_page_text(s), expected);
    }
}

#[test]
fn page_text_holds_no_bare_quote_and_no_bracket() {
    let escaped = escape_page_text("'; alert(1); '<img>\n'");
    assert!(!escaped.contains('<') && !escaped.contains('>') && !escaped.contains('\n'));
    let mut backslash = false;
    for c in escaped.chars() {
        if backslash {
            backslash = false;
        } else if c == '\\' {
            backslash = true;
        } else {
            assert_ne!(c, '\'');
        }
    }
    assert!(!backslash);
}

#[test]
fn replace_script_is_exact() {
    assert_eq!(
        location_replace_script("http://127.0.0.1:3080/?token=abc"),
        "window.location.replace('http://127.0.0.1:3080/?token=abc')"
    );
}
