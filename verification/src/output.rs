//! Output settings and the styling of names in listings.

use vstd::prelude::*;
use crate::text::owned;
use colored::Colorize;

verus! {

/// Global output flags.
#[derive(Debug, Clone, Copy)]
pub struct OutputOptions {
    pub raw: bool,
    pub no_color: bool,
    pub no_pager: bool,
    pub json: bool,
    pub quiet: bool,
}

impl Default for OutputOptions {
    fn default() -> (r: Self)
        ensures
            !r.raw && !r.no_color && !r.no_pager && !r.json && !r.quiet,
    {
        OutputOptions { raw: false, no_color: false, no_pager: false, json: false, quiet: false }
    }
}

// ---------------------------------------------------------------------------
// Styled text
// ---------------------------------------------------------------------------

/// The escape sequence that starts colored's bold style.
pub open spec fn bold_code() -> Seq<char> {
    seq!['\x1b', '[', '1', 'm']
}

/// The escape sequence that starts colored's underlined bright green style.
pub open spec fn green_underline_code() -> Seq<char> {
    seq!['\x1b', '[', '4', ';', '9', '2', 'm']
}

/// The escape sequence that ends a colored style.
pub open spec fn reset_code() -> Seq<char> {
    seq!['\x1b', '[', '0', 'm']
}

/// Whether a text holds no escape character.
pub open spec fn plain(s: Seq<char>) -> bool {
    forall|i: int| 0 <= i < s.len() ==> #[trigger] s[i] != '\x1b'
}

/// `r` is the text `s` as colored shows it with style `code`: unchanged
/// when colored does not colour, else between the style and the reset,
/// with the style started again after each reset inside the text.
pub open spec fn styled_as(r: Seq<char>, s: Seq<char>, code: Seq<char>) -> bool {
    r == s || r == colored_text(s, code)
}

/// The text `s` as colored shows it when it colours with style `code`:
/// between the style and the reset, the style started again after each
/// reset inside the text.
pub open spec fn colored_text(s: Seq<char>, code: Seq<char>) -> Seq<char> {
    code + crate::text::replace_all(s, reset_code(), reset_code() + code) + reset_code()
}

/// A text without escape characters holds no reset to restyle.
pub proof fn lemma_replace_plain(s: Seq<char>, to: Seq<char>)
    requires
        plain(s),
    ensures
        crate::text::replace_all(s, reset_code(), to) == s,
    decreases s.len(),
{
    if s.len() > 0 {
        assert(!reset_code().is_prefix_of(s)) by {
            if reset_code().is_prefix_of(s) {
                assert(reset_code()[0] == s[0]);
            }
        }
        assert forall|i: int| 0 <= i < s.drop_first().len() implies #[trigger] s.drop_first()[i] != '\x1b' by {
            assert(s.drop_first()[i] == s[i + 1]);
        }
        lemma_replace_plain(s.drop_first(), to);
        assert(seq![s[0]] + s.drop_first() =~= s);
    }
}

/// The length of the style sequence a text starts with, 0 if none.
pub open spec fn code_len(t: Seq<char>) -> nat {
    if bold_code().is_prefix_of(t) {
        4
    } else if reset_code().is_prefix_of(t) {
        4
    } else if green_underline_code().is_prefix_of(t) {
        7
    } else {
        0
    }
}

/// A text with the style sequences removed.
pub open spec fn unstyled(t: Seq<char>) -> Seq<char>
    decreases t.len(),
{
    if t.len() == 0 {
        Seq::empty()
    } else if code_len(t) > 0 {
        unstyled(t.skip(code_len(t) as int))
    } else {
        seq![t[0]] + unstyled(t.skip(1))
    }
}

/// Whether a text is made of style sequences and characters other than
/// the escape character.
pub open spec fn styled_form(t: Seq<char>) -> bool
    decreases t.len(),
{
    if t.len() == 0 {
        true
    } else if code_len(t) > 0 {
        styled_form(t.skip(code_len(t) as int))
    } else {
        t[0] != '\x1b' && styled_form(t.skip(1))
    }
}

/// Removing the styles of two texts one after the other is removing them
/// from each.
pub proof fn lemma_unstyled_concat(a: Seq<char>, b: Seq<char>)
    requires
        styled_form(a),
    ensures
        unstyled(a + b) == unstyled(a) + unstyled(b),
        styled_form(b) ==> styled_form(a + b),
    decreases a.len(),
{
    if a.len() == 0 {
        assert(a + b =~= b);
    } else {
        let ab = a + b;
        if code_len(a) > 0 {
            let k = code_len(a) as int;
            assert(bold_code().is_prefix_of(a) ==> bold_code().is_prefix_of(ab));
            assert(reset_code().is_prefix_of(a) ==> reset_code().is_prefix_of(ab));
            assert(green_underline_code().is_prefix_of(a) ==> green_underline_code().is_prefix_of(ab));
            assert(!bold_code().is_prefix_of(a) && a.len() >= 4 ==> !bold_code().is_prefix_of(ab)) by {
                if !bold_code().is_prefix_of(a) && a.len() >= 4 {
                    let j = choose|j: int| 0 <= j < 4 && bold_code()[j] != a[j];
                    assert(ab[j] == a[j]);
                }
            }
            assert(!reset_code().is_prefix_of(a) && a.len() >= 4 ==> !reset_code().is_prefix_of(ab)) by {
                if !reset_code().is_prefix_of(a) && a.len() >= 4 {
                    let j = choose|j: int| 0 <= j < 4 && reset_code()[j] != a[j];
                    assert(ab[j] == a[j]);
                }
            }
            assert(code_len(ab) == k);
            assert(ab.skip(k) =~= a.skip(k) + b);
            lemma_unstyled_concat(a.skip(k), b);
        } else {
            assert(a[0] != '\x1b');
            assert(ab[0] == a[0]);
            assert(!bold_code().is_prefix_of(ab) && !reset_code().is_prefix_of(ab)
                && !green_underline_code().is_prefix_of(ab)) by {
                if bold_code().is_prefix_of(ab) {
                    assert(bold_code()[0] == ab[0]);
                }
                if reset_code().is_prefix_of(ab) {
                    assert(reset_code()[0] == ab[0]);
                }
                if green_underline_code().is_prefix_of(ab) {
                    assert(green_underline_code()[0] == ab[0]);
                }
            }
            assert(ab.skip(1) =~= a.skip(1) + b);
            lemma_unstyled_concat(a.skip(1), b);
            assert(seq![a[0]] + (unstyled(a.skip(1)) + unstyled(b)) =~= seq![a[0]] + unstyled(
                a.skip(1),
            ) + unstyled(b));
        }
    }
}

/// A text without escape characters has the styled form and is its own
/// unstyled text.
pub proof fn lemma_plain_unstyled(s: Seq<char>)
    requires
        plain(s),
    ensures
        styled_form(s),
        unstyled(s) == s,
    decreases s.len(),
{
    if s.len() > 0 {
        assert(s[0] != '\x1b');
        assert(code_len(s) == 0) by {
            if bold_code().is_prefix_of(s) {
                assert(bold_code()[0] == s[0]);
            }
            if reset_code().is_prefix_of(s) {
                assert(reset_code()[0] == s[0]);
            }
            if green_underline_code().is_prefix_of(s) {
                assert(green_underline_code()[0] == s[0]);
            }
        }
        assert forall|i: int| 0 <= i < s.skip(1).len() implies #[trigger] s.skip(1)[i] != '\x1b' by {
            assert(s.skip(1)[i] == s[i + 1]);
        }
        lemma_plain_unstyled(s.skip(1));
        assert(seq![s[0]] + s.skip(1) =~= s);
    }
}

/// A style sequence has the styled form and no text.
proof fn lemma_code_unstyled(code: Seq<char>)
    requires
        code == bold_code() || code == green_underline_code() || code == reset_code(),
    ensures
        styled_form(code),
        unstyled(code) == Seq::<char>::empty(),
{
    let b = bold_code();
    let g = green_underline_code();
    let z = reset_code();
    if code == b {
        assert(b.is_prefix_of(b));
    } else if code == z {
        assert(!b.is_prefix_of(z)) by {
            assert(b[2] != z[2]);
        }
        assert(z.is_prefix_of(z));
    } else {
        assert(!b.is_prefix_of(g)) by {
            assert(b[2] != g[2]);
        }
        assert(!z.is_prefix_of(g)) by {
            assert(z[2] != g[2]);
        }
        assert(g.is_prefix_of(g));
    }
    assert(code_len(code) == code.len());
    assert(code.skip(code.len() as int) =~= Seq::<char>::empty());
    assert(unstyled(code) == unstyled(code.skip(code.len() as int)));
    assert(styled_form(code) == styled_form(code.skip(code.len() as int)));
}

/// A plain text as colored shows it has the styled form, and removing the
/// styles gives it back.
pub proof fn lemma_styled_as(r: Seq<char>, s: Seq<char>, code: Seq<char>)
    requires
        styled_as(r, s, code),
        plain(s),
        code == bold_code() || code == green_underline_code(),
    ensures
        styled_form(r),
        unstyled(r) == s,
{
    lemma_plain_unstyled(s);
    lemma_replace_plain(s, reset_code() + code);
    if r != s {
        lemma_code_unstyled(code);
        lemma_code_unstyled(reset_code());
        lemma_unstyled_concat(s, reset_code());
        lemma_unstyled_concat(code, s + reset_code());
        assert(code + s + reset_code() =~= code + (s + reset_code()));
        assert(s + Seq::<char>::empty() =~= s);
        assert(Seq::<char>::empty() + s =~= s);
    }
}

/// Appending a piece whose styles are removed to `q` to a styled text.
pub proof fn lemma_append_piece(out: Seq<char>, p: Seq<char>, q: Seq<char>)
    requires
        styled_form(out),
        styled_form(p),
        unstyled(p) == q,
    ensures
        styled_form(out + p),
        unstyled(out + p) == unstyled(out) + q,
{
    lemma_unstyled_concat(out, p);
}

/// colored's bright green underline (`Colorize::bright_green`, then
/// `underline`, shown with `Display`). Whether colored colours depends on
/// its own reading of the environment; the result is the text, or the text
/// between the style `ESC[4;92m` and the reset `ESC[0m`, each reset inside
/// it followed by the style again (colored's `Display` for a styled
/// string, which escapes inner resets).
#[verifier::external_body]
fn style_green_underline(s: &str) -> (r: String)
    ensures
        styled_as(r@, s@, green_underline_code()),
{
    s.bright_green().underline().to_string()
}

/// colored's bold (`Colorize::bold`, shown with `Display`). Whether colored
/// colours depends on its own reading of the environment; the result is
/// the text, or the text between the style `ESC[1m` and the reset `ESC[0m`,
/// each reset inside it followed by the style again.
#[verifier::external_body]
fn style_bold(s: &str) -> (r: String)
    ensures
        styled_as(r@, s@, bold_code()),
{
    s.bold().to_string()
}

/// A source name as listed: plain when colours are off, else bright green
/// and underlined.
pub fn fmt_source(s: &str, colors_disabled: bool) -> (r: String)
    ensures
        colors_disabled ==> r@ == s@,
        styled_as(r@, s@, green_underline_code()),
{
    if colors_disabled {
        owned(s)
    } else {
        style_green_underline(s)
    }
}

/// A namespace as listed: plain when colours are off, else bold.
pub fn fmt_namespace(s: &str, colors_disabled: bool) -> (r: String)
    ensures
        colors_disabled ==> r@ == s@,
        styled_as(r@, s@, bold_code()),
{
    if colors_disabled {
        owned(s)
    } else {
        style_bold(s)
    }
}

/// A method as listed: plain when colours are off, else bold.
pub fn fmt_method(s: &str, colors_disabled: bool) -> (r: String)
    ensures
        colors_disabled ==> r@ == s@,
        styled_as(r@, s@, bold_code()),
{
    if colors_disabled {
        owned(s)
    } else {
        style_bold(s)
    }
}

/// A route path as listed: plain when colours are off, else bright green
/// and underlined.
pub fn fmt_path(s: &str, colors_disabled: bool) -> (r: String)
    ensures
        colors_disabled ==> r@ == s@,
        styled_as(r@, s@, green_underline_code()),
{
    if colors_disabled {
        owned(s)
    } else {
        style_green_underline(s)
    }
}

/// A line number as listed: plain when colours are off, else bold.
pub fn fmt_line_number(s: &str, colors_disabled: bool) -> (r: String)
    ensures
        colors_disabled ==> r@ == s@,
        styled_as(r@, s@, bold_code()),
{
    if colors_disabled {
        owned(s)
    } else {
        style_bold(s)
    }
}

} // verus!
