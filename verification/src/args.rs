//! Command-line argument values: the option record, memory limits,
//! search paths, verbosity and the other option enums, and a walker
//! that fills the record from a plain argument vector.
//!
//! The value parsers carry exact contracts; the option walk itself is
//! plumbing around them.

use vstd::prelude::*;
use crate::ast::first_eq;
use crate::ast::lemma_first_eq_bounds;
use crate::parser::first_from;

verus! {

/// Why an argument vector was rejected.
#[derive(Debug, Clone, Copy, PartialEq, Eq)]
pub enum ArgsError {
    /// An option that the tool does not know.
    UnknownFlag,
    /// An option that needs a value, given none.
    MissingValue,
    /// A value that does not parse for its option.
    InvalidValue,
    /// More verbosity markers than there are levels.
    TooVerbose,
    /// More positional arguments than input and output files.
    TooManyArgs,
}

// ---------------------------------------------------------------------
// String helpers
// ---------------------------------------------------------------------

/// Whether two string slices hold the same characters.
fn str_eq(a: &str, b: &str) -> (r: bool)
    ensures
        r == (a@ == b@),
{
    let la = a.unicode_len();
    let lb = b.unicode_len();
    if la != lb {
        proof {
            assert(a@ != b@);
        }
        return false;
    }
    let mut i: usize = 0;
    while i < la
        invariant
            0 <= i <= la,
            la == a@.len(),
            la == b@.len(),
            forall|j: int| 0 <= j < i ==> a@[j] == b@[j],
        decreases la - i,
    {
        if a.get_char(i) != b.get_char(i) {
            return false;
        }
        i = i + 1;
    }
    proof {
        assert(a@ =~= b@);
    }
    true
}

/// Whether `a` starts with the characters of `p`.
fn str_has_prefix(a: &str, p: &str) -> (r: bool)
    ensures
        r == (a@.len() >= p@.len() && a@.subrange(0, p@.len() as int) == p@),
{
    let la = a.unicode_len();
    let lp = p.unicode_len();
    if la < lp {
        return false;
    }
    let mut i: usize = 0;
    while i < lp
        invariant
            0 <= i <= lp <= la,
            la == a@.len(),
            lp == p@.len(),
            forall|j: int| 0 <= j < i ==> a@[j] == p@[j],
        decreases lp - i,
    {
        if a.get_char(i) != p.get_char(i) {
            proof {
                assert(a@.subrange(0, p@.len() as int)[i as int] != p@[i as int]);
            }
            return false;
        }
        i = i + 1;
    }
    proof {
        assert(a@.subrange(0, p@.len() as int) =~= p@);
    }
    true
}

// ---------------------------------------------------------------------
// Memory limits
// ---------------------------------------------------------------------

/// A cap on the extension runtime's memory.
#[derive(Clone, Copy, Debug, PartialEq, Eq)]
pub enum MemoryLimit {
    Limited(usize),
    Unlimited,
}

impl Default for MemoryLimit {
    fn default() -> (r: Self)
        ensures
            r == MemoryLimit::Unlimited,
    {
        MemoryLimit::Unlimited
    }
}

pub open spec fn is_digit_char(c: char) -> bool {
    48 <= c as int && c as int <= 57
}

pub open spec fn digit_of(c: char) -> int {
    c as int - 48
}

/// The digit characters of `s`, in order.
pub open spec fn digits_of(s: Seq<char>) -> Seq<char>
    decreases s.len(),
{
    if s.len() == 0 {
        Seq::empty()
    } else if is_digit_char(s.last()) {
        digits_of(s.drop_last()).push(s.last())
    } else {
        digits_of(s.drop_last())
    }
}

/// The non-digit characters of `s`, in order: the unit of the amount.
pub open spec fn unit_of(s: Seq<char>) -> Seq<char>
    decreases s.len(),
{
    if s.len() == 0 {
        Seq::empty()
    } else if is_digit_char(s.last()) {
        unit_of(s.drop_last())
    } else {
        unit_of(s.drop_last()).push(s.last())
    }
}

/// The number the digit string stands for.
pub open spec fn dec_value(digits: Seq<char>) -> int
    decreases digits.len(),
{
    if digits.len() == 0 {
        0
    } else {
        dec_value(digits.drop_last()) * 10 + digit_of(digits.last())
    }
}

/// What a unit multiplies the amount by, if it is a known unit.
pub open spec fn mem_multiplier(u: Seq<char>) -> Option<int> {
    if u == Seq::<char>::empty() {
        Some(1int)
    } else if u == seq!['K'] {
        Some(1024int)
    } else if u == seq!['M'] {
        Some((1024 * 1024) as int)
    } else if u == seq!['G'] {
        Some((1024 * 1024 * 1024) as int)
    } else {
        None
    }
}

/// The memory limit an argument text denotes: `unlimited`, or an
/// amount with an optional `K`, `M` or `G` unit, the digits and the
/// unit read in the order they stand, as long as the scaled amount
/// fits the machine.
pub open spec fn mem_limit_spec(s: Seq<char>) -> Option<MemoryLimit> {
    if s == "unlimited"@ {
        Some(MemoryLimit::Unlimited)
    } else if s.len() == 0 || digits_of(s).len() == 0 {
        None
    } else {
        match mem_multiplier(unit_of(s)) {
            None => None,
            Some(m) => if dec_value(digits_of(s)) * m <= usize::MAX as int {
                Some(MemoryLimit::Limited((dec_value(digits_of(s)) * m) as usize))
            } else {
                None
            },
        }
    }
}

/// Appending a digit grows the denoted number.
proof fn lemma_dec_value_nonneg(digits: Seq<char>)
    requires
        forall|i: int| 0 <= i < digits.len() ==> is_digit_char(#[trigger] digits[i]),
    ensures
        dec_value(digits) >= 0,
    decreases digits.len(),
{
    if digits.len() > 0 {
        lemma_dec_value_nonneg(digits.drop_last());
    }
}

/// The unit so far, while walking the characters of an amount.
#[derive(Clone, Copy, PartialEq, Eq, Debug)]
enum UnitState {
    Plain,
    Kilo,
    Mega,
    Giga,
    Bad,
}

spec fn unit_state_of(u: Seq<char>) -> UnitState {
    if u == Seq::<char>::empty() {
        UnitState::Plain
    } else if u == seq!['K'] {
        UnitState::Kilo
    } else if u == seq!['M'] {
        UnitState::Mega
    } else if u == seq!['G'] {
        UnitState::Giga
    } else {
        UnitState::Bad
    }
}

impl MemoryLimit {
    /// Reads a memory limit from its argument text; rejected texts are
    /// exactly those `mem_limit_spec` gives nothing for.
    pub fn parse(raw: &str) -> (r: Result<MemoryLimit, ArgsError>)
        ensures
            match mem_limit_spec(raw@) {
                Some(m) => r matches Ok(x) && x == m,
                None => r matches Err(e) && e == ArgsError::InvalidValue,
            },
    {
        proof {
            reveal_strlit("unlimited");
        }
        if str_eq(raw, "unlimited") {
            return Ok(MemoryLimit::Unlimited);
        }
        let len = raw.unicode_len();
        if len == 0 {
            return Err(ArgsError::InvalidValue);
        }
        let mut amt: u128 = 0;
        let mut over: bool = false;
        let mut ndigits: usize = 0;
        let mut unit = UnitState::Plain;
        let mut i: usize = 0;
        while i < len
            invariant
                0 <= i <= len,
                len == raw@.len(),
                ndigits <= i,
                ndigits == digits_of(raw@.subrange(0, i as int)).len(),
                unit == unit_state_of(unit_of(raw@.subrange(0, i as int))),
                forall|j: int|
                    0 <= j < digits_of(raw@.subrange(0, i as int)).len() ==> is_digit_char(
                        #[trigger] digits_of(raw@.subrange(0, i as int))[j],
                    ),
                !over ==> amt == dec_value(digits_of(raw@.subrange(0, i as int))),
                !over ==> amt <= usize::MAX as u128,
                over ==> dec_value(digits_of(raw@.subrange(0, i as int))) > usize::MAX as int,
            decreases len - i,
        {
            let c = raw.get_char(i);
            proof {
                let pre = raw@.subrange(0, i as int);
                let now = raw@.subrange(0, i + 1);
                assert(now.drop_last() =~= pre);
                assert(now.last() == c);
                if is_digit_char(c) {
                    lemma_dec_value_nonneg(digits_of(pre));
                }
            }
            let cu = c as u32;
            if 48 <= cu && cu <= 57 {
                proof {
                    let pre = raw@.subrange(0, i as int);
                    let now = raw@.subrange(0, i + 1);
                    assert(digits_of(now) =~= digits_of(pre).push(c));
                    assert(digits_of(now).drop_last() =~= digits_of(pre));
                    assert(digits_of(now).last() == c);
                    assert(unit_of(now) =~= unit_of(pre));
                    assert forall|j: int| 0 <= j < digits_of(now).len() implies is_digit_char(
                        #[trigger] digits_of(now)[j],
                    ) by {
                        if j < digits_of(pre).len() {
                            assert(digits_of(now)[j] == digits_of(pre)[j]);
                        } else {
                            assert(digits_of(now)[j] == c);
                        }
                    }
                }
                let d = (cu - 48) as u128;
                if !over {
                    let next = amt * 10 + d;
                    if next > usize::MAX as u128 {
                        over = true;
                    } else {
                        amt = next;
                    }
                }
                ndigits = ndigits + 1;
            } else {
                unit = match unit {
                    UnitState::Plain => {
                        if c == 'K' {
                            UnitState::Kilo
                        } else if c == 'M' {
                            UnitState::Mega
                        } else if c == 'G' {
                            UnitState::Giga
                        } else {
                            UnitState::Bad
                        }
                    },
                    _ => UnitState::Bad,
                };
                proof {
                    let pre = raw@.subrange(0, i as int);
                    let now = raw@.subrange(0, i + 1);
                    assert(digits_of(now) =~= digits_of(pre));
                    assert(unit_of(now) =~= unit_of(pre).push(c));
                    if unit_of(pre).len() == 0 {
                        assert(unit_of(pre) =~= Seq::<char>::empty());
                        assert(unit_of(now) =~= seq![c]);
                        assert(unit_of(now)[0] == c);
                        assert(seq!['K'][0] == 'K');
                        assert(seq!['M'][0] == 'M');
                        assert(seq!['G'][0] == 'G');
                        if c == 'K' {
                            assert(unit_of(now) =~= seq!['K']);
                        } else if c == 'M' {
                            assert(unit_of(now) =~= seq!['M']);
                        } else if c == 'G' {
                            assert(unit_of(now) =~= seq!['G']);
                        } else {
                            assert(unit_of(now) != Seq::<char>::empty());
                            assert(unit_of(now) != seq!['K']);
                            assert(unit_of(now) != seq!['M']);
                            assert(unit_of(now) != seq!['G']);
                        }
                    } else {
                        assert(unit_of(now).len() >= 2);
                        assert(unit_of(now) != Seq::<char>::empty());
                        assert(unit_of(now) != seq!['K']);
                        assert(unit_of(now) != seq!['M']);
                        assert(unit_of(now) != seq!['G']);
                    }
                    assert(unit == unit_state_of(unit_of(now)));
                }
            }
            i = i + 1;
        }
        proof {
            assert(raw@.subrange(0, len as int) =~= raw@);
            assert(raw@ != "unlimited"@);
        }
        if ndigits == 0 {
            return Err(ArgsError::InvalidValue);
        }
        let multiplier: u128 = match unit {
            UnitState::Plain => 1,
            UnitState::Kilo => 1024,
            UnitState::Mega => 1024 * 1024,
            UnitState::Giga => 1024 * 1024 * 1024,
            UnitState::Bad => {
                return Err(ArgsError::InvalidValue);
            },
        };
        if over {
            proof {
                lemma_dec_value_nonneg(digits_of(raw@));
                let dv = dec_value(digits_of(raw@));
                match mem_multiplier(unit_of(raw@)) {
                    Some(m) => {
                        assert(dv * m >= dv) by (nonlinear_arith)
                            requires
                                m >= 1,
                                dv >= 0,
                        ;
                    },
                    None => {},
                }
            }
            return Err(ArgsError::InvalidValue);
        }
        proof {
            assert(amt * multiplier <= 0xffff_ffff_ffff_ffffu128 * 0x4000_0000u128) by (
            nonlinear_arith)
                requires
                    0 <= amt <= 0xffff_ffff_ffff_ffffu128,
                    0 <= multiplier <= 0x4000_0000u128,
            ;
        }
        let scaled = amt * multiplier;
        if scaled > usize::MAX as u128 {
            return Err(ArgsError::InvalidValue);
        }
        Ok(MemoryLimit::Limited(scaled as usize))
    }
}

// ---------------------------------------------------------------------
// Search paths
// ---------------------------------------------------------------------

/// The non-empty segments of a colon-separated path text, in order.
pub open spec fn path_segs(s: Seq<char>) -> Seq<Seq<char>>
    decreases s.len(),
{
    let c = first_from(s, 0, ':');
    if 0 <= c < s.len() {
        let head = s.subrange(0, c);
        let rest = path_segs(s.subrange(c + 1, s.len() as int));
        if head.len() == 0 {
            rest
        } else {
            seq![head] + rest
        }
    } else if s.len() == 0 {
        Seq::<Seq<char>>::empty()
    } else {
        seq![s]
    }
}

/// The segments joined back with colons.
pub open spec fn join_colon(segs: Seq<Seq<char>>) -> Seq<char>
    decreases segs.len(),
{
    if segs.len() == 0 {
        Seq::empty()
    } else if segs.len() == 1 {
        segs[0]
    } else {
        segs[0] + seq![':'] + join_colon(segs.subrange(1, segs.len() as int))
    }
}

/// An ordered list of directories to search, as plain path texts.
#[derive(Clone, Debug, Default, PartialEq, Eq)]
pub struct SearchPath {
    pub path: Vec<String>,
}

/// Strings as their character sequences, in order.
pub open spec fn strs_view(v: Seq<String>) -> Seq<Seq<char>> {
    Seq::new(v.len(), |i: int| v[i]@)
}

/// The directories, as their character sequences.
pub open spec fn search_path_view(p: SearchPath) -> Seq<Seq<char>> {
    strs_view(p.path@)
}

impl SearchPath {
    /// Splits a colon-separated path text, dropping empty segments.
    #[verifier::loop_isolation(false)]
    pub fn of_str(raw: &str) -> (r: SearchPath)
        ensures
            search_path_view(r) == path_segs(raw@),
    {
        let len = raw.unicode_len();
        let mut path: Vec<String> = Vec::new();
        let mut i: usize = 0;
        proof {
            assert(raw@.subrange(0, len as int) =~= raw@);
            assert(strs_view(path@).len() == 0);
            assert(strs_view(path@) + path_segs(raw@) =~= path_segs(raw@));
        }
        while i < len
            invariant
                0 <= i <= len,
                len == raw@.len(),
                path_segs(raw@) == strs_view(path@) + path_segs(
                    raw@.subrange(i as int, len as int),
                ),
            decreases len - i,
        {
            let mut j = i;
            loop
                invariant
                    i <= j <= len,
                    len == raw@.len(),
                    forall|k: int| i <= k < j ==> raw@[k] != ':',
                decreases len - j,
            {
                if j >= len {
                    break;
                }
                if raw.get_char(j) == ':' {
                    break;
                }
                j = j + 1;
            }
            let ghost tail = raw@.subrange(i as int, len as int);
            proof {
                if j < len {
                    crate::parser::lemma_first_from_at(tail, 0, j - i, ':');
                } else {
                    crate::parser::lemma_first_from_none(tail, 0, ':');
                }
                assert(tail.subrange(0, j - i) =~= raw@.subrange(i as int, j as int));
                if j < len {
                    assert(tail.subrange(j - i + 1, tail.len() as int) =~= raw@.subrange(
                        j + 1,
                        len as int,
                    ));
                }
            }
            let ghost next_i: int = if j < len { j + 1 } else { len as int };
            let ghost rest = raw@.subrange(next_i, len as int);
            proof {
                if j >= len {
                    assert(rest.len() == 0);
                    assert(path_segs(rest) =~= Seq::<Seq<char>>::empty());
                    assert(tail =~= raw@.subrange(i as int, j as int));
                    if j > i {
                        assert(path_segs(tail) =~= seq![raw@.subrange(i as int, j as int)]
                            + path_segs(rest));
                    } else {
                        assert(path_segs(tail) =~= path_segs(rest));
                    }
                } else {
                    assert(path_segs(tail) == (if (j - i) > 0 {
                        seq![raw@.subrange(i as int, j as int)] + path_segs(rest)
                    } else {
                        path_segs(rest)
                    }));
                }
            }
            if j > i {
                let seg = raw.substring_char(i, j).to_owned();
                proof {
                    assert(strs_view(path@.push(seg)) =~= strs_view(path@).push(seg@));
                    assert(strs_view(path@).push(seg@) + path_segs(rest) =~= strs_view(path@) + (
                    seq![seg@] + path_segs(rest)));
                }
                path.push(seg);
            }
            if j < len {
                i = j + 1;
            } else {
                i = len;
            }
        }
        proof {
            assert(raw@.subrange(len as int, len as int).len() == 0);
            assert(path_segs(raw@.subrange(len as int, len as int))
                =~= Seq::<Seq<char>>::empty());
            assert(strs_view(path@) + Seq::<Seq<char>>::empty() =~= strs_view(path@));
        }
        SearchPath { path }
    }

    /// A search path made of the given directories, kept as given.
    pub fn of_dirs(path: Vec<String>) -> (r: SearchPath)
        ensures
            r.path == path,
    {
        SearchPath { path }
    }

    /// The directories joined with colons.
    pub fn to_string(&self) -> (r: String)
        ensures
            r@ == join_colon(search_path_view(*self)),
    {
        let n = self.path.len();
        if n == 0 {
            proof {
                assert(search_path_view(*self).len() == 0);
            }
            return String::new();
        }
        let mut out: String = self.path[0].clone();
        let mut i: usize = 1;
        while i < n
            invariant
                1 <= i <= n,
                n == self.path@.len(),
                out@ == join_colon(search_path_view(*self).subrange(0, i as int)),
            decreases n - i,
        {
            let ghost pre = search_path_view(*self).subrange(0, i as int);
            out = out.concat(":").concat(self.path[i].as_str());
            proof {
                reveal_strlit(":");
                let now = search_path_view(*self).subrange(0, i + 1);
                lemma_join_colon_push(pre, self.path@[i as int]@);
                assert(now =~= pre.push(self.path@[i as int]@));
            }
            i = i + 1;
        }
        proof {
            assert(search_path_view(*self).subrange(0, n as int) =~= search_path_view(*self));
        }
        out
    }
}

/// Joining after appending a segment appends a colon and the segment.
proof fn lemma_join_colon_push(segs: Seq<Seq<char>>, seg: Seq<char>)
    requires
        segs.len() >= 1,
    ensures
        join_colon(segs.push(seg)) == join_colon(segs) + seq![':'] + seg,
    decreases segs.len(),
{
    let p = segs.push(seg);
    if segs.len() == 1 {
        assert(p.subrange(1, p.len() as int) =~= Seq::<Seq<char>>::empty().push(seg));
        assert(join_colon(p.subrange(1, p.len() as int)) == seg);
        assert(p[0] == segs[0]);
        assert(join_colon(p) =~= join_colon(segs) + seq![':'] + seg);
    } else {
        lemma_join_colon_push(segs.subrange(1, segs.len() as int), seg);
        assert(p.subrange(1, p.len() as int) =~= segs.subrange(1, segs.len() as int).push(seg));
        assert(p[0] == segs[0]);
        assert(join_colon(p) =~= join_colon(segs) + seq![':'] + seg);
    }
}

// ---------------------------------------------------------------------
// Option enums
// ---------------------------------------------------------------------

/// What a `--list` request asks to print.
#[derive(Clone, Copy, Debug, PartialEq, Eq)]
pub enum RequestedInfo {
    InputFormats,
    InputExtensions,
    OutputFormats,
    OutputExtensions,
}

/// How much the tool reports while running.
#[derive(Clone, Copy, Debug, Default, PartialEq, Eq)]
pub enum Verbosity {
    /// Output errors and warnings.
    #[default]
    Terse,
    /// Output more about what is going on.
    Verbose,
    /// Show debugging detail.
    Debug,
}

impl Verbosity {
    /// The verbosity a repetition count asks for; counts past the
    /// deepest level saturate at it.
    pub fn from_count(n: u8) -> (r: Verbosity)
        ensures
            n == 0 ==> r == Verbosity::Terse,
            n == 1 ==> r == Verbosity::Verbose,
            n >= 2 ==> r == Verbosity::Debug,
    {
        if n == 0 {
            Verbosity::Terse
        } else if n == 1 {
            Verbosity::Verbose
        } else {
            Verbosity::Debug
        }
    }
}

/// How far extensions may reach outside the document, as asked on the
/// command line.
#[derive(Clone, Copy, Debug, Default, PartialEq, Eq)]
pub enum SandboxLevel {
    /// Extensions have no restrictions placed upon them.
    Unrestricted,
    /// No new subprocesses, and file access only under the working
    /// directory.
    #[default]
    Standard,
    /// As standard, with all file access prohibited.
    Strict,
}

/// When log output is colourised.
#[derive(Clone, Copy, Debug, Default, PartialEq, Eq)]
pub enum ColouriseOutput {
    Never,
    #[default]
    Auto,
    Always,
}

// ---------------------------------------------------------------------
// Extension arguments
// ---------------------------------------------------------------------

/// A `name=value` argument passed through to extension space, split at
/// its first equals sign.
#[derive(Clone, Debug, PartialEq, Eq)]
pub struct ExtArg {
    pub raw: String,
    pub eq_idx: usize,
}

/// The split index points at the first `=`, and not at the start.
pub open spec fn ext_arg_wf(a: ExtArg) -> bool {
    &&& 0 < a.eq_idx < a.raw@.len()
    &&& a.raw@[a.eq_idx as int] == '='
    &&& forall|j: int| 0 <= j < a.eq_idx ==> a.raw@[j] != '='
}

impl ExtArg {
    /// Splits raw argument text at its first `=`: accepted exactly when
    /// an `=` exists and does not come first, so the name is never
    /// empty.
    pub fn parse(raw: String) -> (r: Result<ExtArg, ArgsError>)
        ensures
            ({
                let eq = first_eq(raw@);
                if eq == 0 || eq >= raw@.len() {
                    r matches Err(e) && e == ArgsError::InvalidValue
                } else {
                    r matches Ok(a) && ext_arg_wf(a) && a.raw == raw && a.eq_idx == eq
                }
            }),
    {
        let eq = find_first_eq(raw.as_str());
        proof {
            lemma_first_eq_bounds(raw@);
        }
        if eq == 0 || eq >= raw.as_str().unicode_len() {
            Err(ArgsError::InvalidValue)
        } else {
            Ok(ExtArg { raw, eq_idx: eq })
        }
    }

    /// The text before the `=`.
    pub fn name(&self) -> (r: &str)
        requires
            ext_arg_wf(*self),
        ensures
            r@ == self.raw@.subrange(0, self.eq_idx as int),
    {
        self.raw.as_str().substring_char(0, self.eq_idx)
    }

    /// The text after the `=`.
    pub fn value(&self) -> (r: &str)
        requires
            ext_arg_wf(*self),
        ensures
            r@ == self.raw@.subrange(self.eq_idx + 1, self.raw@.len() as int),
    {
        let s = self.raw.as_str();
        let l = s.unicode_len();
        s.substring_char(self.eq_idx + 1, l)
    }
}

/// The index of the first `=` of `s`, or `s`'s length if there is
/// none.
fn find_first_eq(s: &str) -> (r: usize)
    ensures
        r == first_eq(s@),
{
    let len = s.unicode_len();
    let mut i: usize = 0;
    while i < len
        invariant
            0 <= i <= len,
            len == s@.len(),
            forall|j: int| 0 <= j < i ==> s@[j] != '=',
        decreases len - i,
    {
        if s.get_char(i) == '=' {
            proof {
                crate::ast::lemma_first_eq_at(s@, i as int);
            }
            return i;
        }
        i = i + 1;
    }
    proof {
        crate::ast::lemma_first_eq_none(s@);
    }
    len
}

// ---------------------------------------------------------------------
// The option record and the argument walker
// ---------------------------------------------------------------------

/// The options a run was started with.
#[derive(Clone, Debug, PartialEq, Eq)]
pub struct Args {
    /// Variables passed into extension space.
    pub extension_args: Vec<ExtArg>,
    /// When log messages are colourised.
    pub colour: ColouriseOutput,
    /// Whether warnings are escalated to failures.
    pub fatal_warnings: bool,
    /// An override for the detected input format.
    pub input_driver: Option<String>,
    /// The file to typeset.
    pub input_file: Option<String>,
    /// A request to print information and exit.
    pub list_info: Option<RequestedInfo>,
    /// The cap on extension memory.
    pub max_mem: MemoryLimit,
    /// An override for the detected output format.
    pub output_driver: Option<String>,
    /// The output file path.
    pub output_file: Option<String>,
    /// The root stylesheet.
    pub style: Option<String>,
    /// How far extensions may reach outside the document.
    pub sandbox: SandboxLevel,
    /// Where stylesheets are searched.
    pub style_path: SearchPath,
    /// How much the tool reports.
    pub verbosity: Verbosity,
    /// Extensions to load.
    pub extensions: Vec<String>,
    /// Where extensions are searched.
    pub extension_path: SearchPath,
}

/// The colourisation a value text names, exactly `never`, `auto` or
/// `always`.
fn colour_of(v: &str) -> (r: Result<ColouriseOutput, ArgsError>)
    ensures
        v@ == "never"@ ==> (r matches Ok(c) && c == ColouriseOutput::Never),
        v@ == "auto"@ ==> (r matches Ok(c) && c == ColouriseOutput::Auto),
        v@ == "always"@ ==> (r matches Ok(c) && c == ColouriseOutput::Always),
        (v@ != "never"@ && v@ != "auto"@ && v@ != "always"@) ==> (r matches Err(e) && e == ArgsError::InvalidValue),
{
    proof {
        reveal_strlit("never");
        reveal_strlit("auto");
        reveal_strlit("always");
        assert("never"@.len() == 5);
        assert("auto"@.len() == 4);
        assert("never"@ != "auto"@);
    }
    if str_eq(v, "never") {
        Ok(ColouriseOutput::Never)
    } else if str_eq(v, "auto") {
        Ok(ColouriseOutput::Auto)
    } else if str_eq(v, "always") {
        Ok(ColouriseOutput::Always)
    } else {
        Err(ArgsError::InvalidValue)
    }
}

/// The sandbox level a value text names, exactly `unrestricted`,
/// `standard` or `strict`.
fn sandbox_of(v: &str) -> (r: Result<SandboxLevel, ArgsError>)
    ensures
        v@ == "unrestricted"@ ==> (r matches Ok(c) && c == SandboxLevel::Unrestricted),
        v@ == "standard"@ ==> (r matches Ok(c) && c == SandboxLevel::Standard),
        v@ == "strict"@ ==> (r matches Ok(c) && c == SandboxLevel::Strict),
        (v@ != "unrestricted"@ && v@ != "standard"@ && v@ != "strict"@) ==> (r matches Err(e) && e == ArgsError::InvalidValue),
{
    proof {
        reveal_strlit("unrestricted");
        reveal_strlit("standard");
        reveal_strlit("strict");
        assert("unrestricted"@.len() == 12);
        assert("standard"@.len() == 8);
        assert("strict"@.len() == 6);
    }
    if str_eq(v, "unrestricted") {
        Ok(SandboxLevel::Unrestricted)
    } else if str_eq(v, "standard") {
        Ok(SandboxLevel::Standard)
    } else if str_eq(v, "strict") {
        Ok(SandboxLevel::Strict)
    } else {
        Err(ArgsError::InvalidValue)
    }
}

/// The information request a value text names.
fn list_info_of(v: &str) -> (r: Result<RequestedInfo, ArgsError>)
    ensures
        v@ == "input-formats"@ ==> (r matches Ok(c) && c == RequestedInfo::InputFormats),
        v@ == "input-extensions"@ ==> (r matches Ok(c) && c == RequestedInfo::InputExtensions),
        v@ == "output-formats"@ ==> (r matches Ok(c) && c == RequestedInfo::OutputFormats),
        v@ == "output-extensions"@ ==> (r matches Ok(c) && c == RequestedInfo::OutputExtensions),
{
    proof {
        reveal_strlit("input-formats");
        reveal_strlit("input-extensions");
        reveal_strlit("output-formats");
        reveal_strlit("output-extensions");
        assert("input-formats"@.len() == 13);
        assert("input-extensions"@.len() == 16);
        assert("output-formats"@.len() == 14);
        assert("output-extensions"@.len() == 17);
    }
    if str_eq(v, "input-formats") {
        Ok(RequestedInfo::InputFormats)
    } else if str_eq(v, "input-extensions") {
        Ok(RequestedInfo::InputExtensions)
    } else if str_eq(v, "output-formats") {
        Ok(RequestedInfo::OutputFormats)
    } else if str_eq(v, "output-extensions") {
        Ok(RequestedInfo::OutputExtensions)
    } else {
        Err(ArgsError::InvalidValue)
    }
}

/// Every field as it stands before any option is read.
pub open spec fn args_default(a: Args) -> bool {
    &&& a.extension_args@.len() == 0
    &&& a.colour == ColouriseOutput::Auto
    &&& !a.fatal_warnings
    &&& a.input_driver is None
    &&& a.input_file is None
    &&& a.list_info is None
    &&& a.max_mem == MemoryLimit::Unlimited
    &&& a.output_driver is None
    &&& a.output_file is None
    &&& a.style is None
    &&& a.sandbox == SandboxLevel::Standard
    &&& a.style_path.path@.len() == 0
    &&& a.verbosity == Verbosity::Terse
    &&& a.extensions@.len() == 0
    &&& a.extension_path.path@.len() == 0
}

/// A `-v`-style token: a dash followed by one or more `v`s.
pub open spec fn is_v_token(t: Seq<char>) -> bool {
    t.len() >= 2 && t[0] == '-' && (forall|j: int| 1 <= j < t.len() ==> t[j] == 'v')
}

/// How many `v`s a `-v`-style token repeats, capped well past the
/// deepest level; anything else in the token gives nothing.
fn v_run(t: &str) -> (r: Option<u8>)
    ensures
        is_v_token(t@) ==> (r matches Some(k) && k == (if t@.len() - 1 <= 10 {
            (t@.len() - 1) as u8
        } else {
            10u8
        })),
{
    let len = t.unicode_len();
    if len < 2 {
        return None;
    }
    if t.get_char(0) != '-' {
        return None;
    }
    let mut i: usize = 1;
    let mut k: u8 = 0;
    while i < len
        invariant
            1 <= i <= len,
            len == t@.len(),
            k <= 10,
            is_v_token(t@) ==> k == (if i - 1 <= 10 {
                i - 1
            } else {
                10int
            }),
        decreases len - i,
    {
        if t.get_char(i) != 'v' {
            proof {
                if is_v_token(t@) {
                    assert(t@[i as int] == 'v');
                }
            }
            return None;
        }
        if k < 10 {
            k = k + 1;
        }
        i = i + 1;
    }
    Some(k)
}

/// The text after a two-character short option, when a value is
/// attached to the token.
fn attached_value(t: &str) -> (r: Option<String>)
{
    let len = t.unicode_len();
    if len > 2 {
        Some(t.substring_char(2, len).to_owned())
    } else {
        None
    }
}

impl Args {
    /// Walks a plain argument vector, the leading program name
    /// included, and fills the option record; the first violation
    /// rejects the whole vector. The value syntaxes themselves are
    /// specified on their parsers (`MemoryLimit::parse`,
    /// `ExtArg::parse`, `SearchPath::of_str`, the option enums).
    #[verifier::loop_isolation(false)]
    pub fn from_vec(args: Vec<String>) -> (r: Result<Args, ArgsError>)
        ensures
            args@.len() <= 1 ==> (r matches Ok(a) && args_default(a)),
            (args@.len() == 2 && args@[1]@ == "-E"@) ==> (r matches Ok(a) && a.fatal_warnings
                && a.verbosity == Verbosity::Terse && a.colour == ColouriseOutput::Auto
                && a.max_mem == MemoryLimit::Unlimited && a.sandbox == SandboxLevel::Standard),
            (args@.len() == 2 && is_v_token(args@[1]@) && args@[1]@.len() == 2) ==> (r matches Ok(
                a,
            ) && a.verbosity == Verbosity::Verbose && !a.fatal_warnings),
            (args@.len() == 2 && is_v_token(args@[1]@) && args@[1]@.len() == 3) ==> (r matches Ok(
                a,
            ) && a.verbosity == Verbosity::Debug && !a.fatal_warnings),
            (args@.len() == 2 && is_v_token(args@[1]@) && args@[1]@.len() >= 4) ==> (r matches Err(
                e,
            ) && e == ArgsError::TooVerbose),
    {
        let ghost hyp_e = args@.len() == 2 && args@[1]@ == "-E"@;
        let ghost hyp_v = args@.len() == 2 && is_v_token(args@[1]@);
        let ghost tl = if args@.len() == 2 {
            args@[1]@.len() as int
        } else {
            0int
        };
        let n = args.len();
        let mut extension_args: Vec<ExtArg> = Vec::new();
        let mut colour = ColouriseOutput::Auto;
        let mut fatal_warnings = false;
        let mut input_driver: Option<String> = None;
        let mut input_file: Option<String> = None;
        let mut list_info: Option<RequestedInfo> = None;
        let mut max_mem = MemoryLimit::Unlimited;
        let mut output_driver: Option<String> = None;
        let mut output_file: Option<String> = None;
        let mut style: Option<String> = None;
        let mut sandbox = SandboxLevel::Standard;
        let mut style_path = SearchPath::of_str("");
        let mut extensions: Vec<String> = Vec::new();
        let mut extension_path = SearchPath::of_str("");
        proof {
            reveal_strlit("");
            assert(""@.len() == 0);
            assert(path_segs(""@).len() == 0);
            assert(style_path.path@.len() == 0);
            assert(extension_path.path@.len() == 0);
        }
        let mut verbosity_ctr: u8 = 0;
        let mut positionals: usize = 0;
        let mut i: usize = 1;
        while i < n
            invariant
                1 <= i,
                n == args@.len(),
                (n <= 1 || hyp_e || hyp_v) ==> (i <= 2 && extension_args@.len() == 0 && colour
                    == ColouriseOutput::Auto && input_driver is None && input_file is None
                    && list_info is None && max_mem == MemoryLimit::Unlimited && output_driver
                    is None && output_file is None && style is None && sandbox
                    == SandboxLevel::Standard && style_path.path@.len() == 0 && extensions@.len()
                    == 0 && extension_path.path@.len() == 0),
                n <= 1 ==> (verbosity_ctr == 0 && !fatal_warnings),
                hyp_e ==> (verbosity_ctr == 0 && (fatal_warnings <==> i == 2)),
                hyp_v ==> (!fatal_warnings && (i == 1 ==> verbosity_ctr == 0) && (i == 2
                    ==> verbosity_ctr == (if tl - 1 <= 10 {
                    tl - 1
                } else {
                    10int
                }))),
            decreases n - i,
        {
            let t: &String = &args[i];
            proof {
                if hyp_v {
                    reveal_strlit("-E");
                    reveal_strlit("-h");
                    reveal_strlit("--help");
                    reveal_strlit("--version");
                    reveal_strlit("--colour");
                    reveal_strlit("--list");
                    reveal_strlit("--max-mem");
                    reveal_strlit("--sandbox");
                    reveal_strlit("--style-path");
                    reveal_strlit("--extension-path");
                    reveal_strlit("-a");
                    reveal_strlit("-i");
                    reveal_strlit("-o");
                    reveal_strlit("-s");
                    reveal_strlit("-x");
                    let tv = t@;
                    assert(tv == args@[1]@);
                    assert(tv[1] == 'v');
                    assert("-E"@.len() == 2 && "-E"@[1] == 'E');
                    assert("-h"@.len() == 2 && "-h"@[1] == 'h');
                    assert("--help"@.len() == 6 && "--help"@[1] == '-');
                    assert("--version"@.len() == 9 && "--version"@[1] == '-');
                    assert("--colour"@.len() == 8 && "--colour"@[1] == '-');
                    assert("--list"@.len() == 6 && "--list"@[1] == '-');
                    assert("--max-mem"@.len() == 9 && "--max-mem"@[1] == '-');
                    assert("--sandbox"@.len() == 9 && "--sandbox"@[1] == '-');
                    assert("--style-path"@.len() == 12 && "--style-path"@[1] == '-');
                    assert("--extension-path"@.len() == 16 && "--extension-path"@[1] == '-');
                    assert("-a"@.len() == 2 && "-a"@[1] == 'a');
                    assert("-i"@.len() == 2 && "-i"@[1] == 'i');
                    assert("-o"@.len() == 2 && "-o"@[1] == 'o');
                    assert("-s"@.len() == 2 && "-s"@[1] == 's');
                    assert("-x"@.len() == 2 && "-x"@[1] == 'x');
                    assert(tv.len() >= 2 ==> tv.subrange(0, 2)[1] == tv[1]);
                }
            }
            let is_last = i + 1 >= n;
            if str_eq(t.as_str(), "-E") {
                fatal_warnings = true;
                i = i + 1;
            } else if str_eq(t.as_str(), "-h") || str_eq(t.as_str(), "--help") || str_eq(
                t.as_str(),
                "--version",
            ) {
                // handled by the surrounding driver; nothing to record
                i = i + 1;
            } else if str_eq(t.as_str(), "--colour") {
                if is_last {
                    return Err(ArgsError::MissingValue);
                }
                colour = match colour_of(args[i + 1].as_str()) {
                    Ok(c) => c,
                    Err(e) => {
                        return Err(e);
                    },
                };
                i = i + 2;
            } else if str_eq(t.as_str(), "--list") {
                if is_last {
                    return Err(ArgsError::MissingValue);
                }
                list_info = match list_info_of(args[i + 1].as_str()) {
                    Ok(c) => Some(c),
                    Err(e) => {
                        return Err(e);
                    },
                };
                i = i + 2;
            } else if str_eq(t.as_str(), "--max-mem") {
                if is_last {
                    return Err(ArgsError::MissingValue);
                }
                max_mem = match MemoryLimit::parse(args[i + 1].as_str()) {
                    Ok(m) => m,
                    Err(e) => {
                        return Err(e);
                    },
                };
                i = i + 2;
            } else if str_eq(t.as_str(), "--sandbox") {
                if is_last {
                    return Err(ArgsError::MissingValue);
                }
                sandbox = match sandbox_of(args[i + 1].as_str()) {
                    Ok(c) => c,
                    Err(e) => {
                        return Err(e);
                    },
                };
                i = i + 2;
            } else if str_eq(t.as_str(), "--style-path") {
                if is_last {
                    return Err(ArgsError::MissingValue);
                }
                style_path = SearchPath::of_str(args[i + 1].as_str());
                i = i + 2;
            } else if str_eq(t.as_str(), "--extension-path") {
                if is_last {
                    return Err(ArgsError::MissingValue);
                }
                extension_path = SearchPath::of_str(args[i + 1].as_str());
                i = i + 2;
            } else if str_has_prefix(t.as_str(), "-a") {
                let raw = match attached_value(t.as_str()) {
                    Some(v) => v,
                    None => {
                        if is_last {
                            return Err(ArgsError::MissingValue);
                        }
                        i = i + 1;
                        args[i].clone()
                    },
                };
                let a = match ExtArg::parse(raw) {
                    Ok(a) => a,
                    Err(e) => {
                        return Err(e);
                    },
                };
                extension_args.push(a);
                i = i + 1;
            } else if str_has_prefix(t.as_str(), "-i") {
                input_driver = match attached_value(t.as_str()) {
                    Some(v) => Some(v),
                    None => {
                        if is_last {
                            return Err(ArgsError::MissingValue);
                        }
                        i = i + 1;
                        Some(args[i].clone())
                    },
                };
                i = i + 1;
            } else if str_has_prefix(t.as_str(), "-o") {
                output_driver = match attached_value(t.as_str()) {
                    Some(v) => Some(v),
                    None => {
                        if is_last {
                            return Err(ArgsError::MissingValue);
                        }
                        i = i + 1;
                        Some(args[i].clone())
                    },
                };
                i = i + 1;
            } else if str_has_prefix(t.as_str(), "-s") {
                style = match attached_value(t.as_str()) {
                    Some(v) => Some(v),
                    None => {
                        if is_last {
                            return Err(ArgsError::MissingValue);
                        }
                        i = i + 1;
                        Some(args[i].clone())
                    },
                };
                i = i + 1;
            } else if str_has_prefix(t.as_str(), "-x") {
                let v = match attached_value(t.as_str()) {
                    Some(v) => v,
                    None => {
                        if is_last {
                            return Err(ArgsError::MissingValue);
                        }
                        i = i + 1;
                        args[i].clone()
                    },
                };
                extensions.push(v);
                i = i + 1;
            } else {
                match v_run(t.as_str()) {
                    Some(k) => {
                        if verbosity_ctr < 10 {
                            if k > 10 - verbosity_ctr {
                                verbosity_ctr = 10;
                            } else {
                                verbosity_ctr = verbosity_ctr + k;
                            }
                        }
                        i = i + 1;
                    },
                    None => {
                        if str_has_prefix(t.as_str(), "-") && t.as_str().unicode_len() > 1 {
                            return Err(ArgsError::UnknownFlag);
                        }
                        if positionals == 0 {
                            input_file = Some(t.clone());
                        } else if positionals == 1 {
                            output_file = Some(t.clone());
                        } else {
                            return Err(ArgsError::TooManyArgs);
                        }
                        positionals = positionals + 1;
                        i = i + 1;
                    },
                }
            }
        }
        if verbosity_ctr >= 3 {
            return Err(ArgsError::TooVerbose);
        }
        let verbosity = Verbosity::from_count(verbosity_ctr);
        Ok(
            Args {
                extension_args,
                colour,
                fatal_warnings,
                input_driver,
                input_file,
                list_info,
                max_mem,
                output_driver,
                output_file,
                style,
                sandbox,
                style_path,
                verbosity,
                extensions,
                extension_path,
            },
        )
    }
}

} // verus!
