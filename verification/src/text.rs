//! Terminal text: ANSI colors and styles, the log prefix, decimal number
//! rendering, and the progress bar.
use vstd::prelude::*;

use vstd::string::StrSliceExecFns;
use vstd::string::StringExecFns;

use crate::strmap::str_eq;

verus! {

/// Resets color and style.
pub const ANSI_RESET: &'static str = "\x1b[0m";

/// Red foreground.
pub const ANSI_RED: &'static str = "\x1b[31m";

/// Green foreground.
pub const ANSI_GREEN: &'static str = "\x1b[32m";

/// Yellow foreground.
pub const ANSI_YELLOW: &'static str = "\x1b[33m";

/// Cyan foreground.
pub const ANSI_CYAN: &'static str = "\x1b[36m";

/// Bold text.
pub const ANSI_BOLD: &'static str = "\x1b[1m";

/// Italic text.
pub const ANSI_ITALIC: &'static str = "\x1b[3m";

/// Underlined text.
pub const ANSI_UNDERLINE: &'static str = "\x1b[4m";

/// Struck-through text.
pub const ANSI_STRIKETHROUGH: &'static str = "\x1b[9m";

/// The text wrapped into the escape code and a reset.
pub open spec fn wrapped(code: Seq<char>, text: Seq<char>) -> Seq<char> {
    code + text + ANSI_RESET@
}

/// Color helpers for terminal output.
pub struct Colors {}

impl Colors {
    /// Wraps the text into the given color code and a reset.
    pub fn colorize(text: &str, color: &str) -> (r: String)
        ensures
            r@ == wrapped(color@, text@),
    {
        let mut r: String = color.to_owned();
        r.append(text);
        r.append(ANSI_RESET);
        r
    }

    /// The text in the informational color.
    pub fn info(text: &str) -> (r: String)
        ensures
            r@ == wrapped(ANSI_CYAN@, text@),
    {
        Colors::colorize(text, ANSI_CYAN)
    }

    /// The text in the warning color.
    pub fn warn(text: &str) -> (r: String)
        ensures
            r@ == wrapped(ANSI_YELLOW@, text@),
    {
        Colors::colorize(text, ANSI_YELLOW)
    }

    /// The text in the error color.
    pub fn error(text: &str) -> (r: String)
        ensures
            r@ == wrapped(ANSI_RED@, text@),
    {
        Colors::colorize(text, ANSI_RED)
    }

    /// The text in the success color.
    pub fn success(text: &str) -> (r: String)
        ensures
            r@ == wrapped(ANSI_GREEN@, text@),
    {
        Colors::colorize(text, ANSI_GREEN)
    }

    /// The text in red.
    pub fn red(text: &str) -> (r: String)
        ensures
            r@ == wrapped(ANSI_RED@, text@),
    {
        Colors::colorize(text, ANSI_RED)
    }

    /// The text in green.
    pub fn green(text: &str) -> (r: String)
        ensures
            r@ == wrapped(ANSI_GREEN@, text@),
    {
        Colors::colorize(text, ANSI_GREEN)
    }
}

/// Style helpers for terminal output.
pub struct TextStyles {}

impl TextStyles {
    /// Wraps the text into the given style code and a reset.
    pub fn stylize(text: &str, style: &str) -> (r: String)
        ensures
            r@ == wrapped(style@, text@),
    {
        let mut r: String = style.to_owned();
        r.append(text);
        r.append(ANSI_RESET);
        r
    }

    /// The text in bold.
    pub fn bold(text: &str) -> (r: String)
        ensures
            r@ == wrapped(ANSI_BOLD@, text@),
    {
        TextStyles::stylize(text, ANSI_BOLD)
    }

    /// The text in italics.
    pub fn italic(text: &str) -> (r: String)
        ensures
            r@ == wrapped(ANSI_ITALIC@, text@),
    {
        TextStyles::stylize(text, ANSI_ITALIC)
    }

    /// The text underlined.
    pub fn underline(text: &str) -> (r: String)
        ensures
            r@ == wrapped(ANSI_UNDERLINE@, text@),
    {
        TextStyles::stylize(text, ANSI_UNDERLINE)
    }

    /// The text struck through.
    pub fn strikethrough(text: &str) -> (r: String)
        ensures
            r@ == wrapped(ANSI_STRIKETHROUGH@, text@),
    {
        TextStyles::stylize(text, ANSI_STRIKETHROUGH)
    }
}

/// The log writer's prefix builder.
pub struct Logger {}

impl Logger {
    /// The colored prefix of the given log level.
    pub fn get_prefix(level: &str) -> (r: String)
        ensures
            level@ == "DEBUG"@ ==> r@ == wrapped(ANSI_CYAN@, "[MONOX:DEBUG]"@),
            level@ == "INFO"@ ==> r@ == wrapped(ANSI_CYAN@, "[MONOX]"@),
            level@ == "WARN"@ ==> r@ == wrapped(ANSI_YELLOW@, "[MONOX]"@),
            level@ == "ERROR"@ ==> r@ == wrapped(ANSI_RED@, "[MONOX]"@),
            level@ == "SUCCESS"@ ==> r@ == wrapped(ANSI_GREEN@, "[MONOX]"@),
    {
        proof {
            reveal_strlit("DEBUG");
            reveal_strlit("INFO");
            reveal_strlit("WARN");
            reveal_strlit("ERROR");
            reveal_strlit("SUCCESS");
            assert("DEBUG"@ != "INFO"@ && "DEBUG"@ != "WARN"@ && "DEBUG"@ != "ERROR"@ && "DEBUG"@
                != "SUCCESS"@) by {
                assert("DEBUG"@.len() == 5 && "INFO"@.len() == 4 && "WARN"@.len() == 4 && "ERROR"@.len()
                    == 5 && "SUCCESS"@.len() == 7);
                assert("DEBUG"@[0] == 'D' && "ERROR"@[0] == 'E');
            }
            assert("INFO"@ != "WARN"@) by {
                assert("INFO"@[0] == 'I' && "WARN"@[0] == 'W');
            }
            assert("INFO"@ != "ERROR"@ && "WARN"@ != "ERROR"@) by {
                assert("INFO"@.len() == 4 && "WARN"@.len() == 4 && "ERROR"@.len() == 5);
            }
            assert("INFO"@ != "SUCCESS"@ && "WARN"@ != "SUCCESS"@ && "ERROR"@ != "SUCCESS"@) by {
                assert("SUCCESS"@.len() == 7 && "INFO"@.len() == 4 && "WARN"@.len() == 4
                    && "ERROR"@.len() == 5);
            }
        }
        if str_eq(level, "DEBUG") {
            Colors::info("[MONOX:DEBUG]")
        } else if str_eq(level, "INFO") {
            Colors::info("[MONOX]")
        } else if str_eq(level, "WARN") {
            Colors::warn("[MONOX]")
        } else if str_eq(level, "ERROR") {
            Colors::error("[MONOX]")
        } else if str_eq(level, "SUCCESS") {
            Colors::success("[MONOX]")
        } else {
            "[MONOX]".to_owned()
        }
    }
}

/// The decimal digit character of a value below ten.
pub open spec fn digit_char(d: nat) -> char {
    (48 + d) as char
}

/// The decimal rendering of a number, most significant digit first.
pub open spec fn dec_str(n: nat) -> Seq<char>
    decreases n,
{
    if n < 10 {
        seq![digit_char(n)]
    } else {
        dec_str(n / 10) + seq![digit_char(n % 10)]
    }
}

/// One decimal digit as text.
fn digit_str(d: usize) -> (r: &'static str)
    requires
        d < 10,
    ensures
        r@ == seq![digit_char(d as nat)],
{
    proof {
        reveal_strlit("0");
        reveal_strlit("1");
        reveal_strlit("2");
        reveal_strlit("3");
        reveal_strlit("4");
        reveal_strlit("5");
        reveal_strlit("6");
        reveal_strlit("7");
        reveal_strlit("8");
        reveal_strlit("9");
    }
    let r = match d {
        0 => "0",
        1 => "1",
        2 => "2",
        3 => "3",
        4 => "4",
        5 => "5",
        6 => "6",
        7 => "7",
        8 => "8",
        _ => "9",
    };
    proof {
        assert(r@ =~= seq![digit_char(d as nat)]);
    }
    r
}

/// Renders a number in decimal.
pub fn usize_to_string(n: usize) -> (r: String)
    ensures
        r@ == dec_str(n as nat),
    decreases n,
{
    if n < 10 {
        digit_str(n).to_owned()
    } else {
        let mut r = usize_to_string(n / 10);
        r.append(digit_str(n % 10));
        r
    }
}

/// `count` copies of the text, concatenated.
pub open spec fn repeated(piece: Seq<char>, count: nat) -> Seq<char>
    decreases count,
{
    if count == 0 {
        Seq::empty()
    } else {
        repeated(piece, (count - 1) as nat) + piece
    }
}

/// Appends `count` copies of the piece to the string.
fn append_repeated(out: &mut String, piece: &str, count: usize)
    ensures
        final(out)@ == old(out)@ + repeated(piece@, count as nat),
{
    let mut i: usize = 0;
    while i < count
        invariant
            0 <= i <= count,
            out@ == old(out)@ + repeated(piece@, i as nat),
        decreases count - i,
    {
        out.append(piece);
        i = i + 1;
    }
    proof {
        if count == 0 {
            assert(old(out)@ + repeated(piece@, 0) =~= old(out)@);
        }
    }
}

/// The filled block of the progress bar.
pub const BAR_FILLED: &'static str = "\u{2588}";

/// The empty block of the progress bar.
pub const BAR_EMPTY: &'static str = "\u{2591}";

/// A textual progress bar.
pub struct ProgressBar {
    /// The number of finished items, clamped to the total when rendered.
    pub current: usize,
    /// The total number of items.
    pub total: usize,
    /// The bar width in blocks.
    pub width: usize,
    /// Whether the bar is colored.
    pub colored: bool,
}

/// What the rendered bar shows for the given state: filled blocks for the
/// finished share of the width, empty blocks for the rest, the counts, and
/// the percentage, all computed on the current value clamped to the total.
pub open spec fn bar_view(current: nat, total: nat, width: nat) -> Seq<char> {
    let c = if current <= total {
        current
    } else {
        total
    };
    let filled = (c * width) / total;
    let pct = (c * 100) / total;
    "["@ + repeated(BAR_FILLED@, filled) + repeated(BAR_EMPTY@, (width - filled) as nat) + "] "@
        + dec_str(current) + "/"@ + dec_str(total) + " ("@ + dec_str(pct) + "%)"@
}

impl ProgressBar {
    /// Creates a bar at zero progress.
    pub fn new(total: usize, width: usize, colored: bool) -> (r: Self)
        ensures
            r.current == 0,
            r.total == total,
            r.width == width,
            r.colored == colored,
    {
        ProgressBar { current: 0, total, width, colored }
    }

    /// Sets the number of finished items.
    pub fn update(&mut self, current: usize)
        ensures
            final(self).current == current,
            final(self).total == old(self).total,
            final(self).width == old(self).width,
            final(self).colored == old(self).colored,
    {
        self.current = current;
    }

    /// Renders the bar; an empty string when the total is zero.
    pub fn render(&self) -> (r: String)
        ensures
            self.total == 0 ==> r@ == Seq::<char>::empty(),
            self.total > 0 ==> r@ == bar_view(
                self.current as nat,
                self.total as nat,
                self.width as nat,
            ),
    {
        if self.total == 0 {
            return String::new();
        }
        let c: usize = if self.current <= self.total {
            self.current
        } else {
            self.total
        };
        let filled = mul_div(c, self.width, self.total);
        let pct = mul_div(c, 100, self.total);
        proof {
            lemma_mul_div_le(c as nat, self.width as nat, self.total as nat);
        }
        let mut r: String = "[".to_owned();
        append_repeated(&mut r, BAR_FILLED, filled);
        append_repeated(&mut r, BAR_EMPTY, self.width - filled);
        r.append("] ");
        let cur_text = usize_to_string(self.current);
        r.append(cur_text.as_str());
        r.append("/");
        let total_text = usize_to_string(self.total);
        r.append(total_text.as_str());
        r.append(" (");
        let pct_text = usize_to_string(pct);
        r.append(pct_text.as_str());
        r.append("%)");
        r
    }
}

/// Computes `a * b / d` without intermediate overflow.
fn mul_div(a: usize, b: usize, d: usize) -> (r: usize)
    requires
        d > 0,
        a <= d,
    ensures
        r as nat == ((a * b) as nat) / (d as nat),
        r <= b,
{
    proof {
        assert((a as u128) * (b as u128) <= 0xffffffffffffffffu128 * 0xffffffffffffffffu128)
            by (nonlinear_arith)
            requires
                a as u128 <= 0xffffffffffffffffu128,
                b as u128 <= 0xffffffffffffffffu128,
        ;
    }
    let wide = (a as u128) * (b as u128) / (d as u128);
    proof {
        lemma_mul_div_le(a as nat, b as nat, d as nat);
        assert((a as u128) * (b as u128) == (a * b) as nat) by (nonlinear_arith)
            requires
                a >= 0,
                b >= 0,
        ;
        assert(wide <= b as u128);
    }
    wide as usize
}

/// `a * b / d` is at most `b` when `a` is at most `d`.
proof fn lemma_mul_div_le(a: nat, b: nat, d: nat)
    requires
        d > 0,
        a <= d,
    ensures
        (a * b) / d <= b,
{
    assert(a * b <= d * b) by (nonlinear_arith)
        requires
            a <= d,
            b >= 0,
    ;
    assert((d * b) / d == b) by (nonlinear_arith)
        requires
            d > 0,
    ;
    assert((a * b) / d <= (d * b) / d) by (nonlinear_arith)
        requires
            d > 0,
            a * b <= d * b,
    ;
}

} // verus!
