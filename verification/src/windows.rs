//! Sliding windows over the decimal digits of pi: locating the digits in the
//! input text, counting and laying out the 9-digit windows as Arrow string
//! columns, and reading the command line.

use vstd::prelude::*;

use crate::error::concat_str;

verus! {

broadcast use vstd::seq_lib::group_seq_properties;

/// Width of a window, in digits.
pub const WINDOW: usize = 9;

/// Rows built per record batch before it is handed to the Parquet writer.
pub const BATCH_ROWS: usize = 1048576;

/// An ASCII decimal digit.
pub open spec fn is_digit(b: u8) -> bool {
    48 <= b <= 57
}

/// Why the input text holds no usable digits.
#[derive(Clone, Copy, Debug, PartialEq, Eq, Structural)]
pub enum DigitsError {
    /// The text does not start with `3.`.
    MissingPrefix,
    /// Fewer than [`WINDOW`] digits follow the decimal point.
    TooFewDigits,
}

/// The digits of a pi text lie at `[2, end)`: after the leading `3.` and before
/// the trailing run of non-digit bytes (such as a final newline).
pub open spec fn digits_end(text: Seq<u8>, end: int) -> bool {
    &&& 2 <= end <= text.len()
    &&& (end == 2 || is_digit(text[end - 1]))
    &&& forall|i: int| end <= i < text.len() ==> !is_digit(#[trigger] text[i])
}

/// Locate the fractional digits of pi in a text of the form `3.` followed by
/// digits: returns the end of the digits, which start at offset 2.
pub fn locate_digits(text: &[u8]) -> (r: Result<usize, DigitsError>)
    ensures
        !(text@.len() >= 2 && text@[0] == 51 && text@[1] == 46) ==> r == Err::<usize, DigitsError>(
            DigitsError::MissingPrefix,
        ),
        text@.len() >= 2 && text@[0] == 51 && text@[1] == 46 ==> match r {
            Ok(end) => digits_end(text@, end as int) && end - 2 >= WINDOW,
            Err(e) => e == DigitsError::TooFewDigits && exists|end: int|
                digits_end(text@, end) && end - 2 < WINDOW,
        },
{
    if text.len() < 2 || text[0] != 51 || text[1] != 46 {
        return Err(DigitsError::MissingPrefix);
    }
    let mut end = text.len();
    while end > 2 && !(48 <= text[end - 1] && text[end - 1] <= 57)
        invariant
            2 <= end <= text@.len(),
            forall|i: int| end <= i < text@.len() ==> !is_digit(#[trigger] text@[i]),
        decreases end,
    {
        end = end - 1;
    }
    assert(digits_end(text@, end as int));
    if end - 2 < WINDOW {
        return Err(DigitsError::TooFewDigits);
    }
    Ok(end)
}

/// The end of the digits is unique.
pub proof fn lemma_digits_end_unique(text: Seq<u8>, a: int, b: int)
    requires
        digits_end(text, a),
        digits_end(text, b),
    ensures
        a == b,
{
    if a < b {
        assert(!is_digit(text[b - 1]));
    } else if b < a {
        assert(!is_digit(text[a - 1]));
    }
}

/// The number of windows to emit: every full window of `n_digits` digits, at
/// most `limit` of them.
pub fn window_count(n_digits: usize, limit: Option<usize>) -> (n: usize)
    requires
        n_digits >= WINDOW,
    ensures
        n == match limit {
            Some(l) => if n_digits - WINDOW + 1 < l {
                n_digits - WINDOW + 1
            } else {
                l as int
            },
            None => n_digits - WINDOW + 1,
        },
{
    let total = n_digits - WINDOW + 1;
    match limit {
        Some(l) => if total < l {
            total
        } else {
            l
        },
        None => total,
    }
}

/// The number of rows of the next batch once `done` of `n_windows` windows are
/// laid out: a full batch of [`BATCH_ROWS`], or what is left.
pub fn batch_rows(done: usize, n_windows: usize) -> (rows: usize)
    requires
        done <= n_windows,
    ensures
        rows == if n_windows - done < BATCH_ROWS {
            n_windows - done
        } else {
            BATCH_ROWS as int
        },
{
    let left = n_windows - done;
    if left < BATCH_ROWS {
        left
    } else {
        BATCH_ROWS
    }
}

/// The buffers of one record batch: the windows stored back to back, their
/// string offsets, and their 1-based positions in the digit stream.
pub struct WindowColumns {
    pub values: Vec<u8>,
    pub offsets: Vec<i32>,
    pub ids: Vec<i64>,
}

/// Lay out `rows` windows starting at digit index `start`.
pub fn window_columns(digits: &[u8], start: usize, rows: usize) -> (cols: WindowColumns)
    requires
        start + rows + WINDOW - 1 <= digits@.len(),
        rows * WINDOW <= i32::MAX,
        start + rows <= i64::MAX,
    ensures
        cols.values@.len() == rows * WINDOW,
        forall|i: int, k: int|
            0 <= i < rows && 0 <= k < WINDOW ==> #[trigger] cols.values@[i * WINDOW + k]
                == digits@[start + i + k],
        cols.offsets@.len() == rows + 1,
        forall|i: int| 0 <= i <= rows ==> #[trigger] cols.offsets@[i] == i * WINDOW,
        cols.ids@.len() == rows,
        forall|i: int| 0 <= i < rows ==> #[trigger] cols.ids@[i] == start + i + 1,
{
    let mut values: Vec<u8> = Vec::new();
    let mut i: usize = 0;
    while i < rows
        invariant
            i <= rows,
            start + rows + WINDOW - 1 <= digits.len(),
            values@.len() == i * WINDOW,
            forall|r: int, k: int|
                0 <= r < i && 0 <= k < WINDOW ==> #[trigger] values@[r * WINDOW + k]
                    == digits@[start + r + k],
        decreases rows - i,
    {
        let src = start + i;
        let mut k: usize = 0;
        while k < WINDOW
            invariant
                i < rows,
                src == start + i,
                k <= WINDOW,
                start + rows + WINDOW - 1 <= digits.len(),
                values@.len() == i * WINDOW + k,
                forall|r: int, kk: int|
                    0 <= r < i && 0 <= kk < WINDOW ==> #[trigger] values@[r * WINDOW + kk]
                        == digits@[start + r + kk],
                forall|kk: int| 0 <= kk < k ==> #[trigger] values@[i * WINDOW + kk] == digits@[src
                    + kk],
            decreases WINDOW - k,
        {
            values.push(digits[src + k]);
            proof {
                assert forall|r: int, kk: int|
                    0 <= r < i && 0 <= kk < WINDOW implies #[trigger] values@[r * WINDOW + kk]
                        == digits@[start + r + kk] by {
                    assert(r * WINDOW + kk < i * WINDOW) by (nonlinear_arith)
                        requires
                            0 <= r < i,
                            0 <= kk < WINDOW,
                            WINDOW == 9,
                    ;
                }
            }
            k = k + 1;
        }
        proof {
            assert forall|r: int, kk: int|
                0 <= r < i + 1 && 0 <= kk < WINDOW implies #[trigger] values@[r * WINDOW + kk]
                    == digits@[start + r + kk] by {
                if r == i {
                    assert(values@[i * WINDOW + kk] == digits@[src + kk]);
                }
            }
            assert((i + 1) * WINDOW == i * WINDOW + WINDOW) by (nonlinear_arith);
        }
        i = i + 1;
    }
    let mut offsets: Vec<i32> = Vec::new();
    let mut j: usize = 0;
    while j <= rows
        invariant
            j <= rows + 1,
            rows * WINDOW <= i32::MAX,
            offsets@.len() == j,
            forall|r: int| 0 <= r < j ==> #[trigger] offsets@[r] == r * WINDOW,
        decreases rows + 1 - j,
    {
        assert(j * WINDOW <= rows * WINDOW) by (nonlinear_arith)
            requires
                j <= rows,
        ;
        offsets.push((j * WINDOW) as i32);
        j = j + 1;
    }
    let mut ids: Vec<i64> = Vec::new();
    let mut m: usize = 0;
    while m < rows
        invariant
            m <= rows,
            start + rows <= i64::MAX,
            start + rows + WINDOW - 1 <= digits.len(),
            ids@.len() == m,
            forall|r: int| 0 <= r < m ==> #[trigger] ids@[r] == start + r + 1,
        decreases rows - m,
    {
        ids.push((start + m + 1) as i64);
        m = m + 1;
    }
    WindowColumns { values, offsets, ids }
}

// ---------------------------------------------------------------------------
// Command line
// ---------------------------------------------------------------------------

/// Settings of a run.
#[derive(Debug)]
pub struct Args {
    pub input: String,
    pub output: String,
    pub limit: Option<usize>,
}

/// Mathematical model of [`Args`].
pub struct ArgsView {
    pub input: Seq<char>,
    pub output: Seq<char>,
    pub limit: Option<nat>,
}

impl View for Args {
    type V = ArgsView;

    open spec fn view(&self) -> ArgsView {
        ArgsView {
            input: self.input@,
            output: self.output@,
            limit: match self.limit {
                Some(l) => Some(l as nat),
                None => None,
            },
        }
    }
}

/// Why a command line was refused.
#[derive(Debug)]
pub enum ArgError {
    InputNeedsValue,
    OutputNeedsValue,
    LimitNeedsValue,
    LimitNotInteger,
    UnknownArg(String),
}

/// Mathematical model of [`ArgError`].
pub enum ArgErrorView {
    InputNeedsValue,
    OutputNeedsValue,
    LimitNeedsValue,
    LimitNotInteger,
    UnknownArg(Seq<char>),
}

impl View for ArgError {
    type V = ArgErrorView;

    open spec fn view(&self) -> ArgErrorView {
        match self {
            ArgError::InputNeedsValue => ArgErrorView::InputNeedsValue,
            ArgError::OutputNeedsValue => ArgErrorView::OutputNeedsValue,
            ArgError::LimitNeedsValue => ArgErrorView::LimitNeedsValue,
            ArgError::LimitNotInteger => ArgErrorView::LimitNotInteger,
            ArgError::UnknownArg(a) => ArgErrorView::UnknownArg(a@),
        }
    }
}

/// The message a refused command line is reported with.
pub open spec fn arg_error_text(e: ArgErrorView) -> Seq<char> {
    match e {
        ArgErrorView::InputNeedsValue => "--input needs a value"@,
        ArgErrorView::OutputNeedsValue => "--output needs a value"@,
        ArgErrorView::LimitNeedsValue => "--limit needs a value"@,
        ArgErrorView::LimitNotInteger => "--limit must be an integer"@,
        ArgErrorView::UnknownArg(a) => "unknown arg: "@ + a,
    }
}

impl ArgError {
    /// The message this refusal is reported with.
    pub fn message(&self) -> (text: String)
        ensures
            text@ == arg_error_text(self@),
    {
        match self {
            ArgError::InputNeedsValue => String::from_str("--input needs a value"),
            ArgError::OutputNeedsValue => String::from_str("--output needs a value"),
            ArgError::LimitNeedsValue => String::from_str("--limit needs a value"),
            ArgError::LimitNotInteger => String::from_str("--limit must be an integer"),
            ArgError::UnknownArg(a) => concat_str("unknown arg: ", a.as_str()),
        }
    }
}

/// The settings used when no option is given.
pub open spec fn default_args() -> ArgsView {
    ArgsView { input: "pi-billion.txt"@, output: "pi-windows.parquet"@, limit: None }
}

/// Value of a run of ASCII decimal digits.
pub open spec fn digits_value(s: Seq<char>) -> nat
    decreases s.len(),
{
    if s.len() == 0 {
        0
    } else {
        digits_value(s.drop_last()) * 10 + ((s.last() as int) - 48) as nat
    }
}

/// Every character is an ASCII decimal digit.
pub open spec fn all_digits(s: Seq<char>) -> bool {
    forall|i: int| 0 <= i < s.len() ==> '0' <= #[trigger] s[i] <= '9'
}

/// What `str::parse::<usize>` makes of a string: an optional `+`, then at least
/// one decimal digit, for a value that fits in `usize`.
pub open spec fn parse_usize(s: Seq<char>) -> Option<nat> {
    let body = if s.len() > 0 && s[0] == '+' {
        s.drop_first()
    } else {
        s
    };
    if body.len() > 0 && all_digits(body) && digits_value(body) <= usize::MAX {
        Some(digits_value(body))
    } else {
        None
    }
}

/// What the command line `args[i..]` makes of the settings `acc`.
pub open spec fn parse_from(args: Seq<Seq<char>>, i: int, acc: ArgsView) -> Result<ArgsView, ArgErrorView>
    decreases args.len() - i,
{
    if i < 0 || i >= args.len() {
        Ok(acc)
    } else {
        let a = args[i];
        let has_value = i + 1 < args.len();
        if a == "--input"@ || a == "-i"@ {
            if has_value {
                parse_from(args, i + 2, ArgsView { input: args[i + 1], output: acc.output, limit: acc.limit })
            } else {
                Err(ArgErrorView::InputNeedsValue)
            }
        } else if a == "--output"@ || a == "-o"@ {
            if has_value {
                parse_from(args, i + 2, ArgsView { input: acc.input, output: args[i + 1], limit: acc.limit })
            } else {
                Err(ArgErrorView::OutputNeedsValue)
            }
        } else if a == "--limit"@ || a == "-n"@ {
            if !has_value {
                Err(ArgErrorView::LimitNeedsValue)
            } else {
                match parse_usize(args[i + 1]) {
                    Some(l) => parse_from(args, i + 2, ArgsView { input: acc.input, output: acc.output, limit: Some(l) }),
                    None => Err(ArgErrorView::LimitNotInteger),
                }
            }
        } else {
            Err(ArgErrorView::UnknownArg(a))
        }
    }
}

/// The six option words are different words.
proof fn lemma_option_words_differ()
    ensures
        "--input"@ != "-i"@,
        "--input"@ != "--output"@,
        "--input"@ != "-o"@,
        "--input"@ != "--limit"@,
        "--input"@ != "-n"@,
        "-i"@ != "--output"@,
        "-i"@ != "-o"@,
        "-i"@ != "--limit"@,
        "-i"@ != "-n"@,
        "--output"@ != "-o"@,
        "--output"@ != "--limit"@,
        "--output"@ != "-n"@,
        "-o"@ != "--limit"@,
        "-o"@ != "-n"@,
        "--limit"@ != "-n"@,
{
    reveal_strlit("--input");
    reveal_strlit("-i");
    reveal_strlit("--output");
    reveal_strlit("-o");
    reveal_strlit("--limit");
    reveal_strlit("-n");
    assert("--input"@[2] != "--output"@[2]);
    assert("--input"@[2] != "--limit"@[2]);
    assert("--output"@[2] != "--limit"@[2]);
    assert("-i"@[1] != "-o"@[1]);
    assert("-i"@[1] != "-n"@[1]);
    assert("-o"@[1] != "-n"@[1]);
}

/// Each option, long or short, followed by a value sets its own setting from
/// that value and leaves the others at their defaults (`pi-billion.txt`,
/// `pi-windows.parquet`, no limit); without a value it is refused with its own
/// error. A limit must read as a decimal `usize`.
pub proof fn lemma_each_option_sets_its_setting(x: Seq<char>)
    ensures
        parse_from(seq!["--input"@, x], 0, default_args()) == Ok::<ArgsView, ArgErrorView>(
            (ArgsView { input: x, output: "pi-windows.parquet"@, limit: None }),
        ),
        parse_from(seq!["-i"@, x], 0, default_args()) == Ok::<ArgsView, ArgErrorView>(
            (ArgsView { input: x, output: "pi-windows.parquet"@, limit: None }),
        ),
        parse_from(seq!["--output"@, x], 0, default_args()) == Ok::<ArgsView, ArgErrorView>(
            (ArgsView { input: "pi-billion.txt"@, output: x, limit: None }),
        ),
        parse_from(seq!["-o"@, x], 0, default_args()) == Ok::<ArgsView, ArgErrorView>(
            (ArgsView { input: "pi-billion.txt"@, output: x, limit: None }),
        ),
        parse_usize(x) matches Some(n) ==> parse_from(seq!["--limit"@, x], 0, default_args())
            == Ok::<ArgsView, ArgErrorView>(
            (ArgsView { input: "pi-billion.txt"@, output: "pi-windows.parquet"@, limit: Some(n) }),
        ),
        parse_usize(x) matches Some(n) ==> parse_from(seq!["-n"@, x], 0, default_args())
            == Ok::<ArgsView, ArgErrorView>(
            (ArgsView { input: "pi-billion.txt"@, output: "pi-windows.parquet"@, limit: Some(n) }),
        ),
        parse_usize(x) is None ==> parse_from(seq!["--limit"@, x], 0, default_args())
            == Err::<ArgsView, ArgErrorView>(ArgErrorView::LimitNotInteger),
        parse_usize(x) is None ==> parse_from(seq!["-n"@, x], 0, default_args())
            == Err::<ArgsView, ArgErrorView>(ArgErrorView::LimitNotInteger),
        parse_from(seq!["--input"@], 0, default_args()) == Err::<ArgsView, ArgErrorView>(
            ArgErrorView::InputNeedsValue,
        ),
        parse_from(seq!["-i"@], 0, default_args()) == Err::<ArgsView, ArgErrorView>(
            ArgErrorView::InputNeedsValue,
        ),
        parse_from(seq!["--output"@], 0, default_args()) == Err::<ArgsView, ArgErrorView>(
            ArgErrorView::OutputNeedsValue,
        ),
        parse_from(seq!["-o"@], 0, default_args()) == Err::<ArgsView, ArgErrorView>(
            ArgErrorView::OutputNeedsValue,
        ),
        parse_from(seq!["--limit"@], 0, default_args()) == Err::<ArgsView, ArgErrorView>(
            ArgErrorView::LimitNeedsValue,
        ),
        parse_from(seq!["-n"@], 0, default_args()) == Err::<ArgsView, ArgErrorView>(
            ArgErrorView::LimitNeedsValue,
        ),
{
    lemma_option_words_differ();
    reveal_with_fuel(parse_from, 2);
}

/// An argument that is none of the option words is refused by name, wherever it
/// stands after complete options.
pub proof fn lemma_unknown_argument_is_refused(a: Seq<char>, rest: Seq<Seq<char>>, acc: ArgsView)
    requires
        a != "--input"@,
        a != "-i"@,
        a != "--output"@,
        a != "-o"@,
        a != "--limit"@,
        a != "-n"@,
    ensures
        parse_from(seq![a] + rest, 0, acc) == Err::<ArgsView, ArgErrorView>(
            ArgErrorView::UnknownArg(a),
        ),
{
    assert((seq![a] + rest)[0] == a);
}

/// The views of a list of strings.
pub open spec fn string_views(args: Seq<String>) -> Seq<Seq<char>> {
    args.map_values(|a: String| a@)
}

fn is_text(a: &String, lit: &str) -> (b: bool)
    ensures
        b == (a@ == lit@),
{
    let l = String::from_str(lit);
    *a == l
}

/// A prefix of an all-digit run never has a larger value than the run.
proof fn lemma_digits_value_prefix(s: Seq<char>, k: int)
    requires
        0 <= k <= s.len(),
        all_digits(s),
    ensures
        digits_value(s.take(k)) <= digits_value(s),
    decreases s.len(),
{
    if k < s.len() {
        assert(all_digits(s.drop_last()));
        lemma_digits_value_prefix(s.drop_last(), k);
        assert(s.drop_last().take(k) =~= s.take(k));
        assert(s.take(s.len() as int) =~= s);
    } else {
        assert(s.take(k) =~= s);
    }
}

/// Parse an unsigned decimal number as `str::parse::<usize>` does.
pub fn parse_decimal(s: &String) -> (r: Option<usize>)
    ensures
        match r {
            Some(v) => parse_usize(s@) == Some(v as nat),
            None => parse_usize(s@) is None,
        },
{
    let mut cs: Vec<char> = Vec::new();
    for c in it: s.as_str().chars()
        invariant
            it.seq() == s@,
            cs@ == s@.take(it.index() as int),
    {
        cs.push(c);
        assert(s@.take(it.index() + 1) =~= s@.take(it.index() as int).push(c));
    }
    assert(cs@ =~= s@);
    let start: usize = if cs.len() > 0 && cs[0] == '+' {
        1
    } else {
        0
    };
    let ghost body = if s@.len() > 0 && s@[0] == '+' {
        s@.drop_first()
    } else {
        s@
    };
    assert(body =~= cs@.subrange(start as int, cs@.len() as int));
    if start == cs.len() {
        assert(body.len() == 0);
        assert(parse_usize(s@) is None);
        return None;
    }
    let mut v: usize = 0;
    let mut i: usize = start;
    while i < cs.len()
        invariant
            start <= i <= cs@.len(),
            body == cs@.subrange(start as int, cs@.len() as int),
            cs@ == s@,
            body == (if s@.len() > 0 && s@[0] == '+' {
                s@.drop_first()
            } else {
                s@
            }),
            all_digits(cs@.subrange(start as int, i as int)),
            v == digits_value(cs@.subrange(start as int, i as int)),
        decreases cs@.len() - i,
    {
        let c = cs[i];
        let ghost prefix = cs@.subrange(start as int, i + 1);
        assert(prefix.drop_last() =~= cs@.subrange(start as int, i as int));
        assert(body.take(i + 1 - start) =~= prefix);
        if !('0' <= c && c <= '9') {
            assert(body[i - start] == c);
            assert(!all_digits(body));
            assert(parse_usize(s@) is None);
            return None;
        }
        let d = (c as u32 - 48) as usize;
        assert(all_digits(prefix));
        assert(digits_value(prefix) == v * 10 + d);
        let tens = match v.checked_mul(10) {
            Some(t) => t,
            None => {
                proof {
                    if all_digits(body) {
                        lemma_digits_value_prefix(body, i + 1 - start);
                    }
                }
                return None;
            },
        };
        v = match tens.checked_add(d) {
            Some(t) => t,
            None => {
                proof {
                    if all_digits(body) {
                        lemma_digits_value_prefix(body, i + 1 - start);
                    }
                }
                return None;
            },
        };
        i = i + 1;
    }
    Some(v)
}

/// Read the command line (the arguments after the program name).
pub fn parse_args(args: &Vec<String>) -> (r: Result<Args, ArgError>)
    ensures
        match r {
            Ok(a) => parse_from(string_views(args@), 0, default_args()) == Ok::<ArgsView, ArgErrorView>(a@),
            Err(e) => parse_from(string_views(args@), 0, default_args()) == Err::<ArgsView, ArgErrorView>(e@),
        },
{
    let ghost v = string_views(args@);
    let mut acc = Args {
        input: String::from_str("pi-billion.txt"),
        output: String::from_str("pi-windows.parquet"),
        limit: None,
    };
    let mut i: usize = 0;
    while i < args.len()
        invariant
            v == string_views(args@),
            i <= args@.len() + 1,
            parse_from(v, 0, default_args()) == parse_from(v, i as int, acc@),
        decreases args@.len() + 1 - i,
    {
        let a = &args[i];
        let has_value = i + 1 < args.len();
        assert(v[i as int] == a@);
        if is_text(a, "--input") || is_text(a, "-i") {
            if !has_value {
                return Err(ArgError::InputNeedsValue);
            }
            acc.input = args[i + 1].clone();
        } else if is_text(a, "--output") || is_text(a, "-o") {
            if !has_value {
                return Err(ArgError::OutputNeedsValue);
            }
            acc.output = args[i + 1].clone();
        } else if is_text(a, "--limit") || is_text(a, "-n") {
            if !has_value {
                return Err(ArgError::LimitNeedsValue);
            }
            match parse_decimal(&args[i + 1]) {
                Some(l) => {
                    acc.limit = Some(l);
                },
                None => {
                    return Err(ArgError::LimitNotInteger);
                },
            }
        } else {
            return Err(ArgError::UnknownArg(a.clone()));
        }
        i = i + 2;
    }
    Ok(acc)
}

} // verus!
