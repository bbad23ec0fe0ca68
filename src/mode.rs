//! Permission modes: parsing of numeric and symbolic mode expressions and
//! their application to existing mode bits.
use vstd::prelude::*;

verus! {

/// Largest value a numeric mode may take (permission bits plus the
/// setuid, setgid and sticky bits).
pub const MAX_MODE: u32 = 0o7777;

/// What a symbolic clause does with its bits.
#[derive(Clone, Copy, Debug, PartialEq, Eq, Structural)]
pub enum Op {
    /// Turn the bits on.
    Add,
    /// Turn the bits off.
    Remove,
    /// Make the targeted classes hold exactly the bits.
    Assign,
}

/// One class-set, operator and bit-set unit of a symbolic expression.
#[derive(Clone, Copy, Debug, PartialEq, Eq, Structural)]
pub struct Clause {
    pub user: bool,
    pub group: bool,
    pub other: bool,
    pub op: Op,
    pub read: bool,
    pub write: bool,
    pub execute: bool,
}

/// The bits of the classes a clause targets.
pub open spec fn class_mask(c: Clause) -> u32 {
    (if c.user { 0o700u32 } else { 0u32 }) | (if c.group { 0o070u32 } else { 0u32 }) | (if c.other {
        0o007u32
    } else {
        0u32
    })
}

/// The bits a clause names, in every class.
pub open spec fn perm_mask(c: Clause) -> u32 {
    (if c.read { 0o444u32 } else { 0u32 }) | (if c.write { 0o222u32 } else { 0u32 }) | (if c.execute {
        0o111u32
    } else {
        0u32
    })
}

/// The bits a clause names within the classes it targets.
pub open spec fn clause_bits(c: Clause) -> u32 {
    class_mask(c) & perm_mask(c)
}

pub open spec fn apply_clause(m: u32, c: Clause) -> u32 {
    match c.op {
        Op::Add => m | clause_bits(c),
        Op::Remove => m & !clause_bits(c),
        Op::Assign => (m & !class_mask(c)) | clause_bits(c),
    }
}

/// The clauses applied in order, the first one first.
pub open spec fn apply_clauses(m: u32, cs: Seq<Clause>) -> u32
    decreases cs.len(),
{
    if cs.len() == 0 {
        m
    } else {
        apply_clause(apply_clauses(m, cs.drop_last()), cs.last())
    }
}

/// A mode expression as a mathematical value.
pub enum ModeSpec {
    Numeric(u32),
    Symbolic(Seq<Clause>),
}

/// A parsed mode expression.
#[derive(Debug)]
pub enum ModeExpression {
    /// A literal mode that replaces the current one.
    Numeric(u32),
    /// Clauses applied in order to the current mode.
    Symbolic(Vec<Clause>),
}

impl View for ModeExpression {
    type V = ModeSpec;

    open spec fn view(&self) -> ModeSpec {
        match self {
            ModeExpression::Numeric(v) => ModeSpec::Numeric(*v),
            ModeExpression::Symbolic(cs) => ModeSpec::Symbolic(cs@),
        }
    }
}

pub open spec fn apply_spec(current: u32, e: ModeSpec) -> u32 {
    match e {
        ModeSpec::Numeric(v) => v,
        ModeSpec::Symbolic(cs) => apply_clauses(current, cs),
    }
}

fn class_mask_of(c: &Clause) -> (r: u32)
    ensures
        r == class_mask(*c),
{
    let u: u32 = if c.user { 0o700 } else { 0 };
    let g: u32 = if c.group { 0o070 } else { 0 };
    let o: u32 = if c.other { 0o007 } else { 0 };
    u | g | o
}

fn perm_mask_of(c: &Clause) -> (r: u32)
    ensures
        r == perm_mask(*c),
{
    let r: u32 = if c.read { 0o444 } else { 0 };
    let w: u32 = if c.write { 0o222 } else { 0 };
    let x: u32 = if c.execute { 0o111 } else { 0 };
    r | w | x
}

impl Clause {
    /// The mode that results from applying this clause to `current`.
    pub fn apply_to(&self, current: u32) -> (r: u32)
        ensures
            r == apply_clause(current, *self),
    {
        let classes = class_mask_of(self);
        let bits = classes & perm_mask_of(self);
        match self.op {
            Op::Add => current | bits,
            Op::Remove => current & !bits,
            Op::Assign => (current & !classes) | bits,
        }
    }
}

/// Applies a parsed expression to the current mode. A numeric expression
/// replaces the mode; a symbolic one changes only the bits its clauses name.
pub fn apply(current: u32, expr: &ModeExpression) -> (r: u32)
    ensures
        r == apply_spec(current, expr@),
{
    match expr {
        ModeExpression::Numeric(v) => *v,
        ModeExpression::Symbolic(cs) => {
            let mut m = current;
            let mut i: usize = 0;
            while i < cs.len()
                invariant
                    i <= cs@.len(),
                    m == apply_clauses(current, cs@.take(i as int)),
                decreases cs@.len() - i,
            {
                assert(cs@.take(i + 1).drop_last() =~= cs@.take(i as int));
                m = cs[i].apply_to(m);
                i = i + 1;
            }
            assert(cs@.take(cs@.len() as int) =~= cs@);
            m
        },
    }
}

/// Why a mode expression was refused.
#[derive(Clone, Copy, Debug, PartialEq, Eq, Structural)]
pub enum ParseError {
    /// A numeric mode that is empty, holds a digit 8 or 9, or exceeds `MAX_MODE`.
    InvalidMode,
    /// A symbolic mode holding a character outside `ugoa+-rwx`.
    UnknownFlag,
    /// A symbolic mode with no operator, or with bits before any operator.
    MissingOperator,
    /// An operator that no class precedes.
    MissingClass,
    /// A clause whose operator is followed by no bit.
    MissingBits,
}

pub open spec fn is_digit(c: char) -> bool {
    '0' <= c && c <= '9'
}

pub open spec fn is_octal_digit(c: char) -> bool {
    '0' <= c && c <= '7'
}

pub open spec fn all_digits(s: Seq<char>) -> bool {
    forall|i: int| 0 <= i < s.len() ==> is_digit(#[trigger] s[i])
}

pub open spec fn all_octal(s: Seq<char>) -> bool {
    forall|i: int| 0 <= i < s.len() ==> is_octal_digit(#[trigger] s[i])
}

pub open spec fn digit_value(c: char) -> int {
    (c as u32) as int - ('0' as u32) as int
}

/// The digits read in base 8, most significant first.
pub open spec fn octal_value(s: Seq<char>) -> int
    decreases s.len(),
{
    if s.len() == 0 {
        0
    } else {
        8 * octal_value(s.drop_last()) + digit_value(s.last())
    }
}

pub open spec fn is_class_char(c: char) -> bool {
    c == 'u' || c == 'g' || c == 'o' || c == 'a'
}

pub open spec fn is_op_char(c: char) -> bool {
    c == '+' || c == '-'
}

pub open spec fn is_bit_char(c: char) -> bool {
    c == 'r' || c == 'w' || c == 'x'
}

pub open spec fn is_flag_char(c: char) -> bool {
    is_class_char(c) || is_op_char(c) || is_bit_char(c)
}

/// The state of the symbolic scanner: the clauses closed so far and the
/// pending one, whose operator has been seen when `has_op` holds.
pub struct ScanState {
    pub done: Seq<Clause>,
    pub pending: Clause,
    pub has_op: bool,
}

pub open spec fn empty_clause() -> Clause {
    Clause {
        user: false,
        group: false,
        other: false,
        op: Op::Add,
        read: false,
        write: false,
        execute: false,
    }
}

pub open spec fn scan_start() -> ScanState {
    ScanState { done: Seq::empty(), pending: empty_clause(), has_op: false }
}

pub open spec fn has_class(c: Clause) -> bool {
    c.user || c.group || c.other
}

pub open spec fn has_bits(c: Clause) -> bool {
    c.read || c.write || c.execute
}

pub open spec fn op_of(c: char) -> Op {
    if c == '+' {
        Op::Add
    } else {
        Op::Remove
    }
}

pub open spec fn add_class(p: Clause, c: char) -> Clause {
    if c == 'u' {
        Clause { user: true, ..p }
    } else if c == 'g' {
        Clause { group: true, ..p }
    } else if c == 'o' {
        Clause { other: true, ..p }
    } else {
        Clause { user: true, group: true, other: true, ..p }
    }
}

pub open spec fn add_bit(p: Clause, c: char) -> Clause {
    if c == 'r' {
        Clause { read: true, ..p }
    } else if c == 'w' {
        Clause { write: true, ..p }
    } else {
        Clause { execute: true, ..p }
    }
}

/// One character of a symbolic expression. A class letter after an operator
/// closes the pending clause and starts the class set of a new one; an
/// operator closes a pending clause that has one and keeps its classes.
pub open spec fn scan_step(st: ScanState, c: char) -> Result<ScanState, ParseError> {
    if is_class_char(c) {
        if st.has_op {
            if !has_bits(st.pending) {
                Err(ParseError::MissingBits)
            } else {
                Ok(
                    ScanState {
                        done: st.done.push(st.pending),
                        pending: add_class(empty_clause(), c),
                        has_op: false,
                    },
                )
            }
        } else {
            Ok(ScanState { pending: add_class(st.pending, c), ..st })
        }
    } else if is_op_char(c) {
        if st.has_op {
            if !has_bits(st.pending) {
                Err(ParseError::MissingBits)
            } else {
                Ok(
                    ScanState {
                        done: st.done.push(st.pending),
                        pending: Clause {
                            op: op_of(c),
                            read: false,
                            write: false,
                            execute: false,
                            ..st.pending
                        },
                        has_op: true,
                    },
                )
            }
        } else if !has_class(st.pending) {
            Err(ParseError::MissingClass)
        } else {
            Ok(ScanState { pending: Clause { op: op_of(c), ..st.pending }, has_op: true, ..st })
        }
    } else if st.has_op {
        Ok(ScanState { pending: add_bit(st.pending, c), ..st })
    } else {
        Err(ParseError::MissingOperator)
    }
}

/// The scanner after reading `s`, or the first error met.
pub open spec fn scan(s: Seq<char>) -> Result<ScanState, ParseError>
    decreases s.len(),
{
    if s.len() == 0 {
        Ok(scan_start())
    } else {
        match scan(s.drop_last()) {
            Ok(st) => scan_step(st, s.last()),
            Err(e) => Err(e),
        }
    }
}

/// The end of input closes the pending clause.
pub open spec fn scan_finish(st: ScanState) -> Result<Seq<Clause>, ParseError> {
    if !st.has_op {
        Err(ParseError::MissingOperator)
    } else if !has_bits(st.pending) {
        Err(ParseError::MissingBits)
    } else {
        Ok(st.done.push(st.pending))
    }
}

/// What a mode expression means. A string of decimal digits is a numeric
/// mode in base 8; anything else is symbolic, and a character outside the
/// symbolic alphabet refuses it before any clause is formed.
pub open spec fn parse_spec(s: Seq<char>) -> Result<ModeSpec, ParseError> {
    if all_digits(s) {
        if s.len() == 0 || !all_octal(s) || octal_value(s) > MAX_MODE as int {
            Err(ParseError::InvalidMode)
        } else {
            Ok(ModeSpec::Numeric(octal_value(s) as u32))
        }
    } else if exists|i: int| 0 <= i < s.len() && !is_flag_char(#[trigger] s[i]) {
        Err(ParseError::UnknownFlag)
    } else {
        match scan(s) {
            Ok(st) => match scan_finish(st) {
                Ok(cs) => Ok(ModeSpec::Symbolic(cs)),
                Err(e) => Err(e),
            },
            Err(e) => Err(e),
        }
    }
}

proof fn lemma_octal_prefix_monotone(s: Seq<char>, i: int, j: int)
    requires
        all_digits(s),
        0 <= i <= j <= s.len(),
    ensures
        octal_value(s.take(i)) <= octal_value(s.take(j)),
    decreases j - i,
{
    if i < j {
        lemma_octal_prefix_monotone(s, i, j - 1);
        assert(s.take(j).drop_last() =~= s.take(j - 1));
        lemma_octal_nonneg(s.take(j - 1));
    }
}

proof fn lemma_octal_nonneg(s: Seq<char>)
    requires
        all_digits(s),
    ensures
        octal_value(s) >= 0,
    decreases s.len(),
{
    if s.len() > 0 {
        assert(all_digits(s.drop_last())) by {
            assert forall|k: int| 0 <= k < s.drop_last().len() implies is_digit(
                #[trigger] s.drop_last()[k],
            ) by {
                assert(s.drop_last()[k] == s[k]);
            }
        }
        lemma_octal_nonneg(s.drop_last());
        assert(is_digit(s[s.len() - 1]));
    }
}

proof fn lemma_scan_err_persists(s: Seq<char>, i: int, e: ParseError)
    requires
        0 <= i <= s.len(),
        scan(s.take(i)) == Err::<ScanState, ParseError>(e),
    ensures
        scan(s) == Err::<ScanState, ParseError>(e),
    decreases s.len() - i,
{
    if i < s.len() {
        assert(s.take(i + 1).drop_last() =~= s.take(i));
        lemma_scan_err_persists(s, i + 1, e);
    } else {
        assert(s.take(i) =~= s);
    }
}

fn digits_only(s: &str) -> (r: bool)
    ensures
        r == all_digits(s@),
{
    let n = s.unicode_len();
    let mut i: usize = 0;
    while i < n
        invariant
            n == s@.len(),
            i <= n,
            forall|k: int| 0 <= k < i ==> is_digit(#[trigger] s@[k]),
        decreases n - i,
    {
        let c = s.get_char(i);
        if !('0' <= c && c <= '9') {
            return false;
        }
        i = i + 1;
    }
    true
}

fn flags_only(s: &str) -> (r: bool)
    ensures
        r == !(exists|i: int| 0 <= i < s@.len() && !is_flag_char(#[trigger] s@[i])),
{
    let n = s.unicode_len();
    let mut i: usize = 0;
    while i < n
        invariant
            n == s@.len(),
            i <= n,
            forall|k: int| 0 <= k < i ==> is_flag_char(#[trigger] s@[k]),
        decreases n - i,
    {
        let c = s.get_char(i);
        if !(c == 'u' || c == 'g' || c == 'o' || c == 'a' || c == '+' || c == '-' || c == 'r' || c
            == 'w' || c == 'x') {
            assert(!is_flag_char(s@[i as int]));
            return false;
        }
        i = i + 1;
    }
    true
}

/// Reads a string of decimal digits as a base-8 mode.
fn parse_numeric(s: &str) -> (r: Result<u32, ParseError>)
    requires
        all_digits(s@),
    ensures
        match r {
            Ok(v) => s@.len() > 0 && all_octal(s@) && octal_value(s@) <= MAX_MODE as int
                && v as int == octal_value(s@),
            Err(e) => e == ParseError::InvalidMode && (s@.len() == 0 || !all_octal(s@)
                || octal_value(s@) > MAX_MODE as int),
        },
{
    let n = s.unicode_len();
    if n == 0 {
        return Err(ParseError::InvalidMode);
    }
    let mut v: u32 = 0;
    let mut i: usize = 0;
    assert(s@.take(0) =~= Seq::<char>::empty());
    while i < n
        invariant
            n == s@.len(),
            all_digits(s@),
            i <= n,
            v <= MAX_MODE,
            v as int == octal_value(s@.take(i as int)),
            forall|k: int| 0 <= k < i ==> is_octal_digit(#[trigger] s@[k]),
        decreases n - i,
    {
        let c = s.get_char(i);
        assert(is_digit(s@[i as int]));
        if c > '7' {
            assert(!is_octal_digit(s@[i as int]));
            return Err(ParseError::InvalidMode);
        }
        let d: u32 = (c as u32) - ('0' as u32);
        assert(s@.take(i + 1).drop_last() =~= s@.take(i as int));
        v = v * 8 + d;
        i = i + 1;
        if v > MAX_MODE {
            proof {
                lemma_octal_prefix_monotone(s@, i as int, n as int);
                assert(s@.take(n as int) =~= s@);
            }
            return Err(ParseError::InvalidMode);
        }
    }
    assert(s@.take(n as int) =~= s@);
    Ok(v)
}

/// Runs the symbolic scanner over a string of flag characters.
fn parse_symbolic(s: &str) -> (r: Result<Vec<Clause>, ParseError>)
    ensures
        match r {
            Ok(cs) => match scan(s@) {
                Ok(st) => scan_finish(st) == Ok::<Seq<Clause>, ParseError>(cs@),
                Err(_) => false,
            },
            Err(e) => match scan(s@) {
                Ok(st) => scan_finish(st) == Err::<Seq<Clause>, ParseError>(e),
                Err(e2) => e2 == e,
            },
        },
{
    let n = s.unicode_len();
    let mut done: Vec<Clause> = Vec::new();
    let mut pending = Clause {
        user: false,
        group: false,
        other: false,
        op: Op::Add,
        read: false,
        write: false,
        execute: false,
    };
    let mut has_op = false;
    let mut i: usize = 0;
    assert(s@.take(0) =~= Seq::<char>::empty());
    while i < n
        invariant
            n == s@.len(),
            i <= n,
            scan(s@.take(i as int)) == Ok::<ScanState, ParseError>(
                ScanState { done: done@, pending, has_op },
            ),
        decreases n - i,
    {
        let c = s.get_char(i);
        assert(s@.take(i + 1).drop_last() =~= s@.take(i as int));
        assert(s@.take(i + 1).last() == c);
        let is_class = c == 'u' || c == 'g' || c == 'o' || c == 'a';
        let is_op = c == '+' || c == '-';
        let has_bits = pending.read || pending.write || pending.execute;
        if is_class {
            if has_op {
                if !has_bits {
                    proof {
                        lemma_scan_err_persists(s@, i + 1, ParseError::MissingBits);
                    }
                    return Err(ParseError::MissingBits);
                }
                done.push(pending);
                pending = Clause {
                    user: false,
                    group: false,
                    other: false,
                    op: Op::Add,
                    read: false,
                    write: false,
                    execute: false,
                };
                has_op = false;
            }
            if c == 'u' {
                pending = Clause { user: true, ..pending };
            } else if c == 'g' {
                pending = Clause { group: true, ..pending };
            } else if c == 'o' {
                pending = Clause { other: true, ..pending };
            } else {
                pending = Clause { user: true, group: true, other: true, ..pending };
            }
        } else if is_op {
            let op = if c == '+' {
                Op::Add
            } else {
                Op::Remove
            };
            if has_op {
                if !has_bits {
                    proof {
                        lemma_scan_err_persists(s@, i + 1, ParseError::MissingBits);
                    }
                    return Err(ParseError::MissingBits);
                }
                done.push(pending);
                pending = Clause { op, read: false, write: false, execute: false, ..pending };
            } else {
                if !(pending.user || pending.group || pending.other) {
                    proof {
                        lemma_scan_err_persists(s@, i + 1, ParseError::MissingClass);
                    }
                    return Err(ParseError::MissingClass);
                }
                pending = Clause { op, ..pending };
                has_op = true;
            }
        } else {
            if !has_op {
                proof {
                    lemma_scan_err_persists(s@, i + 1, ParseError::MissingOperator);
                }
                return Err(ParseError::MissingOperator);
            }
            if c == 'r' {
                pending = Clause { read: true, ..pending };
            } else if c == 'w' {
                pending = Clause { write: true, ..pending };
            } else {
                pending = Clause { execute: true, ..pending };
            }
        }
        i = i + 1;
    }
    assert(s@.take(n as int) =~= s@);
    if !has_op {
        return Err(ParseError::MissingOperator);
    }
    if !(pending.read || pending.write || pending.execute) {
        return Err(ParseError::MissingBits);
    }
    done.push(pending);
    Ok(done)
}

/// Parses a mode expression: all decimal digits make a numeric mode read
/// in base 8, anything else a list of symbolic clauses.
pub fn parse(s: &str) -> (r: Result<ModeExpression, ParseError>)
    ensures
        match r {
            Ok(e) => parse_spec(s@) == Ok::<ModeSpec, ParseError>(e@),
            Err(e) => parse_spec(s@) == Err::<ModeSpec, ParseError>(e),
        },
{
    if digits_only(s) {
        match parse_numeric(s) {
            Ok(v) => Ok(ModeExpression::Numeric(v)),
            Err(e) => Err(e),
        }
    } else if !flags_only(s) {
        Err(ParseError::UnknownFlag)
    } else {
        match parse_symbolic(s) {
            Ok(cs) => Ok(ModeExpression::Symbolic(cs)),
            Err(e) => Err(e),
        }
    }
}

/// Parses `expr` and applies it to `current`, as chmod computes the new mode
/// of a file before writing it.
pub fn new_mode(expr: &str, current: u32) -> (r: Result<u32, ParseError>)
    ensures
        match parse_spec(expr@) {
            Ok(e) => r == Ok::<u32, ParseError>(apply_spec(current, e)),
            Err(e) => r == Err::<u32, ParseError>(e),
        },
{
    match parse(expr) {
        Ok(e) => Ok(apply(current, &e)),
        Err(e) => Err(e),
    }
}

pub open spec fn pow8(n: nat) -> int
    decreases n,
{
    if n == 0 {
        1
    } else {
        8 * pow8((n - 1) as nat)
    }
}

proof fn lemma_octal_bound(s: Seq<char>)
    requires
        all_octal(s),
    ensures
        0 <= octal_value(s) < pow8(s.len()),
    decreases s.len(),
{
    if s.len() > 0 {
        assert(all_octal(s.drop_last())) by {
            assert forall|k: int| 0 <= k < s.drop_last().len() implies is_octal_digit(
                #[trigger] s.drop_last()[k],
            ) by {
                assert(s.drop_last()[k] == s[k]);
            }
        }
        lemma_octal_bound(s.drop_last());
        assert(is_octal_digit(s[s.len() - 1]));
    }
}

/// A numeric mode of one to four octal digits parses, and applying it to any
/// current mode yields exactly the value the digits denote.
pub proof fn law_numeric_replaces(s: Seq<char>, current: u32)
    requires
        1 <= s.len() <= 4,
        all_octal(s),
    ensures
        parse_spec(s) == Ok::<ModeSpec, ParseError>(ModeSpec::Numeric(octal_value(s) as u32)),
        apply_spec(current, ModeSpec::Numeric(octal_value(s) as u32)) == octal_value(s),
{
    assert(all_digits(s)) by {
        assert forall|k: int| 0 <= k < s.len() implies is_digit(#[trigger] s[k]) by {
            assert(is_octal_digit(s[k]));
        }
    }
    lemma_octal_bound(s);
    assert(pow8(s.len()) <= 4096) by {
        reveal_with_fuel(pow8, 5);
    }
}

proof fn lemma_no_flag_error(s: Seq<char>)
    requires
        forall|i: int| 0 <= i < s.len() ==> is_flag_char(#[trigger] s[i]),
        exists|i: int| 0 <= i < s.len() && !is_digit(#[trigger] s[i]),
    ensures
        parse_spec(s) == match scan(s) {
            Ok(st) => match scan_finish(st) {
                Ok(cs) => Ok(ModeSpec::Symbolic(cs)),
                Err(e) => Err(e),
            },
            Err(e) => Err(e),
        },
{
}

/// The clause one class, one operator and one bit make.
pub open spec fn single_clause(class: char, op: char, bit: char) -> Clause {
    add_bit(Clause { op: op_of(op), ..add_class(empty_clause(), class) }, bit)
}

proof fn lemma_single_clause(s: Seq<char>)
    requires
        s.len() == 3,
        is_class_char(s[0]),
        is_op_char(s[1]),
        is_bit_char(s[2]),
    ensures
        parse_spec(s) == Ok::<ModeSpec, ParseError>(
            ModeSpec::Symbolic(seq![single_clause(s[0], s[1], s[2])]),
        ),
{
    assert(!is_digit(s[0]));
    lemma_no_flag_error(s);
    assert(s.drop_last().drop_last().drop_last() =~= Seq::<char>::empty());
    assert(s.drop_last().drop_last() =~= seq![s[0]]);
    assert(s.drop_last() =~= seq![s[0], s[1]]);
    reveal_with_fuel(scan, 4);
    assert(scan(s.drop_last().drop_last()) == scan_step(scan_start(), s[0]));
    assert(Seq::<Clause>::empty().push(single_clause(s[0], s[1], s[2])) =~= seq![
        single_clause(s[0], s[1], s[2]),
    ]);
}

proof fn lemma_apply_single(m: u32, c: Clause)
    ensures
        apply_spec(m, ModeSpec::Symbolic(seq![c])) == apply_clause(m, c),
{
    assert(seq![c].drop_last() =~= Seq::<Clause>::empty());
    reveal_with_fuel(apply_clauses, 2);
}

/// `u+x` parses, and turns on the owner's execute bit, leaving every other
/// bit as it was.
pub proof fn law_user_add_execute(s: Seq<char>, current: u32)
    requires
        s == seq!['u', '+', 'x'],
    ensures
        parse_spec(s) is Ok,
        apply_spec(current, parse_spec(s)->Ok_0) & 0o100 == 0o100,
        apply_spec(current, parse_spec(s)->Ok_0) & !0o100u32 == current & !0o100u32,
{
    lemma_single_clause(s);
    let c = single_clause('u', '+', 'x');
    lemma_apply_single(current, c);
    assert((0o700u32 | 0u32 | 0u32) & (0u32 | 0u32 | 0o111u32) == 0o100u32) by (bit_vector);
    assert(clause_bits(c) == 0o100u32);
    let r = current | 0o100u32;
    assert(r & 0o100 == 0o100 && r & !0o100u32 == current & !0o100u32) by (bit_vector)
        requires
            r == current | 0o100u32,
    ;
}

/// `a-w` parses, and turns off the write bit of every class, leaving every
/// other bit as it was.
pub proof fn law_all_remove_write(s: Seq<char>, current: u32)
    requires
        s == seq!['a', '-', 'w'],
    ensures
        parse_spec(s) is Ok,
        apply_spec(current, parse_spec(s)->Ok_0) & 0o222 == 0,
        apply_spec(current, parse_spec(s)->Ok_0) & !0o222u32 == current & !0o222u32,
{
    lemma_single_clause(s);
    let c = single_clause('a', '-', 'w');
    lemma_apply_single(current, c);
    assert((0o700u32 | 0o070u32 | 0o007u32) & (0u32 | 0o222u32 | 0u32) == 0o222u32) by (bit_vector);
    assert(clause_bits(c) == 0o222u32);
    let r = current & !0o222u32;
    assert(r & 0o222 == 0 && r & !0o222u32 == current & !0o222u32) by (bit_vector)
        requires
            r == current & !0o222u32,
    ;
}

/// `u+r` followed by `u-r` gives back a mode whose owner read bit was off.
/// (Where that bit was on, the pair turns it off.)
pub proof fn law_user_read_round_trip(add: Seq<char>, remove: Seq<char>, current: u32)
    requires
        add == seq!['u', '+', 'r'],
        remove == seq!['u', '-', 'r'],
        current & 0o400 == 0,
    ensures
        parse_spec(add) is Ok,
        parse_spec(remove) is Ok,
        apply_spec(apply_spec(current, parse_spec(add)->Ok_0), parse_spec(remove)->Ok_0)
            == current,
{
    lemma_single_clause(add);
    lemma_single_clause(remove);
    let a = single_clause('u', '+', 'r');
    let b = single_clause('u', '-', 'r');
    lemma_apply_single(current, a);
    lemma_apply_single(current | 0o400u32, b);
    assert((0o700u32 | 0u32 | 0u32) & (0o444u32 | 0u32 | 0u32) == 0o400u32) by (bit_vector);
    assert(clause_bits(a) == 0o400u32);
    assert((0o700u32 | 0u32 | 0u32) & (0o444u32 | 0u32 | 0u32) == 0o400u32) by (bit_vector);
    assert(clause_bits(b) == 0o400u32);
    assert((current | 0o400u32) & !0o400u32 == current) by (bit_vector)
        requires
            current & 0o400 == 0,
    ;
}

/// A symbolic clause leaves every bit outside the classes it targets as it
/// was, setuid, setgid and sticky bits included.
pub proof fn law_clause_keeps_other_classes(current: u32, c: Clause)
    ensures
        apply_clause(current, c) & !class_mask(c) == current & !class_mask(c),
{
    lemma_masked_ops_keep_outside(current, class_mask(c), perm_mask(c));
}

proof fn lemma_masked_ops_keep_outside(m: u32, k: u32, p: u32)
    by (bit_vector)
    ensures
        (m | (k & p)) & !k == m & !k,
        (m & !(k & p)) & !k == m & !k,
        ((m & !k) | (k & p)) & !k == m & !k,
{
}

} // verus!
