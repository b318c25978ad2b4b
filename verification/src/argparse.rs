//! Run configuration: capture modes and the option set that the capture
//! engines read (screen size, concurrency, timeouts, proxies).

use vstd::prelude::*;

verus! {

/// Which capture protocol a target belongs to, or `Auto` for "not yet
/// pinned down".
#[derive(Copy, Clone, PartialEq, Eq, Structural, Debug)]
pub enum Mode {
    Auto,
    Web,
    Rdp,
    Vnc,
}

impl Mode {
    /// Determine whether the supplied mode filter is valid for the
    /// current mode. Combinations are:
    /// `Mode::Auto` -> all filters valid
    /// `Mode::X` -> only X and auto are valid
    pub fn selected(&self, filter: Self) -> (r: bool)
        ensures
            r == (*self == Mode::Auto || *self == filter || filter == Mode::Auto),
    {
        *self == Mode::Auto || *self == filter || filter == Mode::Auto
    }
}

impl Default for Mode {
    fn default() -> (r: Self)
        ensures
            r == Mode::Auto,
    {
        Mode::Auto
    }
}

/// Which engine renders web targets.
#[derive(Copy, Clone, PartialEq, Eq, Structural, Debug)]
pub enum WebMode {
    Chrome,
    Native,
}

impl Default for WebMode {
    fn default() -> (r: Self)
        ensures
            r == WebMode::Chrome,
    {
        WebMode::Chrome
    }
}

/// Character-for-character equality of two string slices.
pub fn str_eq(a: &str, b: &str) -> (r: bool)
    ensures
        r == (a@ == b@),
{
    let sa: String = a.to_owned();
    let sb: String = b.to_owned();
    sa.eq(&sb)
}

/// Parse a mode name as given on the command line.
pub fn mode_from_str(s: &str) -> (r: Result<Mode, &'static str>)
    ensures
        s@ == "web"@ ==> r == Ok::<Mode, &'static str>(Mode::Web),
        s@ == "rdp"@ ==> r == Ok::<Mode, &'static str>(Mode::Rdp),
        s@ == "vnc"@ ==> r == Ok::<Mode, &'static str>(Mode::Vnc),
        s@ == "auto"@ ==> r == Ok::<Mode, &'static str>(Mode::Auto),
        (s@ != "web"@ && s@ != "rdp"@ && s@ != "vnc"@ && s@ != "auto"@) ==> r is Err,
{
    proof {
        reveal_strlit("web");
        reveal_strlit("rdp");
        reveal_strlit("vnc");
        reveal_strlit("auto");
        assert("web"@[0] == 'w');
        assert("rdp"@[0] == 'r');
        assert("vnc"@[0] == 'v');
        assert("auto"@[0] == 'a');
    }
    if str_eq(s, "web") {
        Ok(Mode::Web)
    } else if str_eq(s, "rdp") {
        Ok(Mode::Rdp)
    } else if str_eq(s, "vnc") {
        Ok(Mode::Vnc)
    } else if str_eq(s, "auto") {
        Ok(Mode::Auto)
    } else {
        Err("Mode must be \"auto\", \"web\" or \"rdp\"")
    }
}

/// Parse a web engine name as given on the command line.
pub fn webmode_from_str(s: &str) -> (r: Result<WebMode, &'static str>)
    ensures
        s@ == "chrome"@ ==> r == Ok::<WebMode, &'static str>(WebMode::Chrome),
        s@ == "native"@ ==> r == Ok::<WebMode, &'static str>(WebMode::Native),
        (s@ != "chrome"@ && s@ != "native"@) ==> r is Err,
{
    proof {
        reveal_strlit("chrome");
        reveal_strlit("native");
        assert("chrome"@[0] == 'c');
        assert("native"@[0] == 'n');
    }
    if str_eq(s, "chrome") {
        Ok(WebMode::Chrome)
    } else if str_eq(s, "native") {
        Ok(WebMode::Native)
    } else {
        Err("Invalid web mode")
    }
}

/// Validate a proxy argument: only SOCKS5 URIs can carry RDP and VNC
/// connections.
pub fn is_socks5(val: &str) -> (r: Result<(), String>)
    ensures
        r is Ok <==> crate::util::contains_at(val@, "socks5://"@, 0),
        r matches Err(m) ==> m@ == "Global or RDP proxy must be a socks5:// URI"@,
{
    if !crate::util::str_starts_with(val, "socks5://") {
        Err(String::from_str("Global or RDP proxy must be a socks5:// URI"))
    } else {
        Ok(())
    }
}

/// Whether the character is a decimal digit.
pub open spec fn is_digit(c: char) -> bool {
    48 <= c as u32 <= 57
}

/// Whether every character in `[from, to)` is a decimal digit.
pub open spec fn all_digits(s: Seq<char>, from: int, to: int) -> bool {
    forall|i: int| from <= i < to ==> is_digit(#[trigger] s[i])
}

/// The value of a digit string read as decimal.
pub open spec fn digits_val(s: Seq<char>) -> int
    decreases s.len(),
{
    if s.len() == 0 {
        0
    } else {
        digits_val(s.drop_last()) * 10 + (s.last() as u32 - 48)
    }
}

/// Whether position `k` splits `s` into `<digits>x<digits>`.
pub open spec fn size_shape_at(s: Seq<char>, k: int) -> bool {
    &&& 1 <= k < s.len() - 1
    &&& s[k] == 'x'
    &&& all_digits(s, 0, k)
    &&& all_digits(s, k + 1, s.len() as int)
}

/// Parse a capture size argument of the form `<width>x<height>`, both
/// parts decimal. Returns nothing for any other shape, and for values
/// that do not fit the machine's word.
pub fn parse_size(s: &str) -> (r: Option<(usize, usize)>)
    ensures
        r is Some <==> exists|k: int|
            #[trigger] size_shape_at(s@, k) && digits_val(s@.subrange(0, k)) <= usize::MAX
                && digits_val(s@.subrange(k + 1, s@.len() as int)) <= usize::MAX,
        r matches Some(v) ==> forall|k: int|
            #[trigger] size_shape_at(s@, k) ==> v.0 == digits_val(s@.subrange(0, k)) && v.1
                == digits_val(s@.subrange(k + 1, s@.len() as int)),
{
    let len = s.unicode_len();
    // find the first `x`
    let mut k: usize = 0;
    while k < len && s.get_char(k) != 'x'
        invariant
            len == s@.len(),
            k <= len,
            forall|i: int| 0 <= i < k ==> s@[i] != 'x',
        decreases len - k,
    {
        k = k + 1;
    }
    if k == 0 || k >= len || k + 1 >= len {
        proof {
            assert forall|kk: int| !size_shape_at(s@, kk) by {
                if size_shape_at(s@, kk) {
                    if kk < k {
                        assert(s@[kk] == 'x');
                    } else if kk > k && k < len {
                        assert(is_digit(s@[k as int]));
                    }
                }
            }
        }
        return None;
    }
    let width = match parse_digits(s, 0, k) {
        Some(v) => v,
        None => {
            proof {
                lemma_size_shape_unique(s@, k as int);
            }
            return None;
        },
    };
    let height = match parse_digits(s, k + 1, len) {
        Some(v) => v,
        None => {
            proof {
                lemma_size_shape_unique(s@, k as int);
            }
            return None;
        },
    };
    proof {
        lemma_size_shape_unique(s@, k as int);
        assert(size_shape_at(s@, k as int));
    }
    Some((width, height))
}

/// Any two splits of a size string land on the same `x`: a digit is
/// never an `x`.
proof fn lemma_size_shape_unique(s: Seq<char>, k: int)
    requires
        0 <= k < s.len(),
        s[k] == 'x',
        forall|i: int| 0 <= i < k ==> s[i] != 'x',
    ensures
        forall|kk: int| #[trigger] size_shape_at(s, kk) ==> kk == k,
{
    assert forall|kk: int| #[trigger] size_shape_at(s, kk) implies kk == k by {
        if kk < k {
            assert(s[kk] == 'x');
        } else if kk > k {
            assert(is_digit(s[k]));
        }
    }
}

/// Parse the digits in `[from, to)` as a decimal number, if they are
/// all digits and the value fits.
fn parse_digits(s: &str, from: usize, to: usize) -> (r: Option<usize>)
    requires
        from < to,
        to <= s@.len(),
    ensures
        r is Some <==> all_digits(s@, from as int, to as int) && digits_val(
            s@.subrange(from as int, to as int),
        ) <= usize::MAX,
        r matches Some(v) ==> v == digits_val(s@.subrange(from as int, to as int)),
{
    let mut acc: usize = 0;
    let mut i: usize = from;
    while i < to
        invariant
            from <= i <= to,
            to <= s@.len(),
            all_digits(s@, from as int, i as int),
            acc == digits_val(s@.subrange(from as int, i as int)),
        decreases to - i,
    {
        let c = s.get_char(i);
        let cv = c as u32;
        if cv < 48 || cv > 57 {
            proof {
                assert(!all_digits(s@, from as int, to as int));
            }
            return None;
        }
        let d = (cv - 48) as usize;
        if acc > (usize::MAX - d) / 10 {
            proof {
                assert(s@.subrange(from as int, i + 1).drop_last() =~= s@.subrange(
                    from as int,
                    i as int,
                ));
                assert(acc * 10 + d > usize::MAX) by (nonlinear_arith)
                    requires
                        acc > (usize::MAX - d) / 10,
                        d <= 9,
                ;
                assert(digits_val(s@.subrange(from as int, i + 1)) > usize::MAX);
                if all_digits(s@, from as int, to as int) {
                    lemma_digits_val_monotone(s@, from as int, i + 1, to as int);
                }
            }
            return None;
        }
        acc = acc * 10 + d;
        proof {
            assert(s@.subrange(from as int, i + 1).drop_last() =~= s@.subrange(
                from as int,
                i as int,
            ));
            assert(acc == digits_val(s@.subrange(from as int, i + 1)));
        }
        i = i + 1;
    }
    proof {
        assert(s@.subrange(from as int, to as int) =~= s@.subrange(from as int, i as int));
    }
    Some(acc)
}

/// A digit string's value is never negative.
proof fn lemma_digits_val_nonneg(s: Seq<char>)
    requires
        forall|i: int| 0 <= i < s.len() ==> is_digit(#[trigger] s[i]),
    ensures
        digits_val(s) >= 0,
    decreases s.len(),
{
    if s.len() > 0 {
        lemma_digits_val_nonneg(s.drop_last());
        let a = digits_val(s.drop_last());
        assert(digits_val(s) == a * 10 + (s.last() as u32 - 48));
        assert(a * 10 >= 0) by (nonlinear_arith)
            requires
                a >= 0,
        ;
    }
}

/// Appending digits never shrinks the value: if a prefix is already too
/// large, the whole number is.
proof fn lemma_digits_val_monotone(s: Seq<char>, from: int, mid: int, to: int)
    requires
        0 <= from <= mid <= to,
        to <= s.len(),
        all_digits(s, from, to),
    ensures
        digits_val(s.subrange(from, to)) >= digits_val(s.subrange(from, mid)),
    decreases to - mid,
{
    if mid < to {
        lemma_digits_val_monotone(s, from, mid + 1, to);
        assert(s.subrange(from, mid + 1).drop_last() =~= s.subrange(from, mid));
        assert(forall|i: int|
            0 <= i < s.subrange(from, mid).len() ==> is_digit(#[trigger] s.subrange(from, mid)[i]));
        lemma_digits_val_nonneg(s.subrange(from, mid));
        let a = digits_val(s.subrange(from, mid));
        let b = digits_val(s.subrange(from, mid + 1));
        assert(is_digit(s[mid]));
        assert(b == a * 10 + (s[mid] as u32 - 48));
        assert(b >= a) by (nonlinear_arith)
            requires
                b == a * 10 + (s[mid] as u32 - 48),
                a >= 0,
                s[mid] as u32 >= 48,
        ;
    }
}

/// The option set that the capture engines consume. Argument handling
/// itself happens outside the library; this struct carries the decoded
/// values.
#[derive(Debug)]
pub struct Opts {
    pub files: Vec<String>,
    pub targets: Vec<String>,
    pub mode: Mode,
    pub rdp_timeout: usize,
    pub threads: usize,
    pub log_file: Option<String>,
    pub nmaps: Vec<String>,
    pub nessus: Vec<String>,
    pub output_dir: String,
    pub web_proxy: Option<String>,
    pub rdp_proxy: Option<String>,
    pub vnc_proxy: Option<String>,
    pub rdp_user: Option<String>,
    pub rdp_pass: Option<String>,
    pub rdp_domain: Option<String>,
    pub vnc_auth: Option<String>,
    pub web_path: Vec<String>,
    pub size: (usize, usize),
    pub silent: bool,
    pub verbose: u64,
    pub test_import: bool,
    pub web_mode: WebMode,
}

impl Default for Opts {
    fn default() -> (r: Self)
        ensures
            r.files@.len() == 0,
            r.targets@.len() == 0,
            r.mode == Mode::Auto,
            r.rdp_timeout == 0,
            r.threads == 0,
            r.log_file is None,
            r.nmaps@.len() == 0,
            r.nessus@.len() == 0,
            r.output_dir@.len() == 0,
            r.web_proxy is None,
            r.rdp_proxy is None,
            r.vnc_proxy is None,
            r.rdp_user is None,
            r.rdp_pass is None,
            r.rdp_domain is None,
            r.vnc_auth is None,
            r.web_path@.len() == 0,
            r.size == (0usize, 0usize),
            r.silent == false,
            r.verbose == 0,
            r.test_import == false,
            r.web_mode == WebMode::Chrome,
    {
        Opts {
            files: Vec::new(),
            targets: Vec::new(),
            mode: Mode::Auto,
            rdp_timeout: 0,
            threads: 0,
            log_file: None,
            nmaps: Vec::new(),
            nessus: Vec::new(),
            output_dir: String::new(),
            web_proxy: None,
            rdp_proxy: None,
            vnc_proxy: None,
            rdp_user: None,
            rdp_pass: None,
            rdp_domain: None,
            vnc_auth: None,
            web_path: Vec::new(),
            size: (0, 0),
            silent: false,
            verbose: 0,
            test_import: false,
            web_mode: WebMode::Chrome,
        }
    }
}

} // verus!
