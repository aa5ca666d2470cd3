use vstd::prelude::*;
use std::rc::Rc;

use crate::ast::{External, Lambda, external_arity};

verus! {

/// Something that can be applied: a global function, a built-in or a constructor.
#[derive(Debug, Clone, Copy)]
pub enum Prim<'a> {
    Global(&'a String, &'a Lambda),
    External(External),
    Pack(usize, usize),
}

/// The number of arguments a primitive takes before it fires.
pub open spec fn prim_arity(p: Prim) -> nat {
    match p {
        Prim::Global(_, lam) => lam.binds@.len(),
        Prim::External(op) => external_arity(op),
        Prim::Pack(_, arity) => arity as nat,
    }
}

/// Machine values, shared through reference-counted handles.
#[derive(Debug)]
pub enum Value<'a> {
    Num(i64),
    Pack(usize, Vec<Rc<Value<'a>>>),
    PAP(Prim<'a>, Vec<Rc<Value<'a>>>, usize),
}

/// `v` is well-formed down to depth `d`: each partial application met has as many
/// collected plus missing arguments as its primitive's arity.
pub open spec fn wf_depth(v: Value, d: nat) -> bool
    decreases d,
{
    if d == 0 {
        true
    } else {
        match v {
            Value::Num(_) => true,
            Value::Pack(_, args) => forall|i: int|
                #![trigger args@[i]]
                0 <= i < args@.len() ==> wf_depth(*args@[i], (d - 1) as nat),
            Value::PAP(p, args, missing) => {
                &&& args@.len() + missing == prim_arity(p)
                &&& forall|i: int|
                    #![trigger args@[i]]
                    0 <= i < args@.len() ==> wf_depth(*args@[i], (d - 1) as nat)
            },
        }
    }
}

/// Every partial application reachable from `v` has as many collected plus missing
/// arguments as its primitive's arity.
pub open spec fn wf_value(v: Value) -> bool {
    forall|d: nat| #[trigger] wf_depth(v, d)
}

pub open spec fn wf_values(vs: Seq<Rc<Value>>) -> bool {
    forall|i: int| 0 <= i < vs.len() ==> #[trigger] wf_value(*vs[i])
}

/// The fields of a well-formed value are well-formed.
pub proof fn lemma_wf_fields(v: &Value)
    requires
        wf_value(*v),
    ensures
        match *v {
            Value::Num(_) => true,
            Value::Pack(_, args) => wf_values(args@),
            Value::PAP(p, args, missing) => wf_values(args@) && args@.len() + missing == prim_arity(p),
        },
{
    match *v {
        Value::Num(_) => {},
        Value::Pack(_, args) => {
            assert forall|i: int| 0 <= i < args@.len() implies wf_value(*#[trigger] args@[i]) by {
                assert forall|d: nat| #[trigger] wf_depth(*args@[i], d) by {
                    assert(wf_depth(*v, d + 1));
                }
            }
        },
        Value::PAP(_, args, _) => {
            assert(wf_depth(*v, 1));
            assert forall|i: int| 0 <= i < args@.len() implies wf_value(*#[trigger] args@[i]) by {
                assert forall|d: nat| #[trigger] wf_depth(*args@[i], d) by {
                    assert(wf_depth(*v, d + 1));
                }
            }
        },
    }
}

/// A partial application of well-formed arguments that leaves the right number missing
/// is well-formed.
pub proof fn lemma_wf_pap(p: Prim, args: &Vec<Rc<Value>>, missing: usize)
    requires
        wf_values(args@),
        args@.len() + missing == prim_arity(p),
    ensures
        wf_value(Value::PAP(p, *args, missing)),
{
    let v = Value::PAP(p, *args, missing);
    assert forall|d: nat| #[trigger] wf_depth(v, d) by {
        if d > 0 {
            assert forall|i: int| 0 <= i < args@.len() implies wf_depth(
                *#[trigger] args@[i],
                (d - 1) as nat,
            ) by {
                assert(wf_value(*args@[i]));
            }
        }
    }
}

/// A constructor of well-formed fields is well-formed.
pub proof fn lemma_wf_pack(tag: usize, args: &Vec<Rc<Value>>)
    requires
        wf_values(args@),
    ensures
        wf_value(Value::Pack(tag, *args)),
{
    let v = Value::Pack(tag, *args);
    assert forall|d: nat| #[trigger] wf_depth(v, d) by {
        if d > 0 {
            assert forall|i: int| 0 <= i < args@.len() implies wf_depth(
                *#[trigger] args@[i],
                (d - 1) as nat,
            ) by {
                assert(wf_value(*args@[i]));
            }
        }
    }
}

pub(crate) proof fn lemma_wf_values_concat(a: Seq<Rc<Value>>, b: Seq<Rc<Value>>)
    requires
        wf_values(a),
        wf_values(b),
    ensures
        wf_values(a + b),
{
    assert forall|i: int| 0 <= i < (a + b).len() implies wf_value(*#[trigger] (a + b)[i]) by {
        if i < a.len() {
            assert((a + b)[i] == a[i]);
        } else {
            assert((a + b)[i] == b[i - a.len()]);
        }
    }
}

/// The constructor with tag `tag` and no fields.
pub open spec fn is_nullary(v: Value, tag: usize) -> bool {
    match v {
        Value::Pack(t, args) => t == tag && args@.len() == 0,
        _ => false,
    }
}

pub open spec fn bool_tag(b: bool) -> usize {
    if b {
        1
    } else {
        0
    }
}

pub open spec fn is_num(v: Value) -> bool {
    v matches Value::Num(_)
}

pub open spec fn num_of(v: Value) -> i64 {
    match v {
        Value::Num(n) => n,
        _ => 0,
    }
}

/// Why a run stopped before reaching a final state.
#[derive(Debug, Clone, Copy, PartialEq, Eq)]
pub enum Fault {
    /// A global name that the module does not define.
    UnknownGlobal,
    /// A local index outside the environment.
    BadIndex,
    /// An application whose function is not a partial application.
    NotAFunction,
    /// A match on something other than a constructor.
    NotData,
    /// A constructor tag with no alternative.
    BadTag,
    /// A built-in given the wrong number of arguments.
    ArityMismatch,
    /// A built-in given a non-integer where it needs an integer.
    NotAnInt,
    /// `geti` found no integer on the next input line.
    BadInput,
    /// An application with no arguments.
    EmptyArgs,
    /// A value with no continuation frame left to receive it.
    NoFrame,
    /// A step taken while a step was still in progress.
    Unsettled,
    /// The step counter ran out.
    TooManySteps,
}

/// Decimal digits of `n`, most significant first.
pub open spec fn digits(n: nat) -> Seq<u8>
    decreases n,
{
    if n < 10 {
        seq![(n + 48) as u8]
    } else {
        digits(n / 10).push(((n % 10) + 48) as u8)
    }
}

/// The decimal text of an integer: a minus sign for negatives, then its digits.
pub open spec fn decimal_bytes(n: int) -> Seq<u8> {
    if n < 0 {
        seq![45u8] + digits((-n) as nat)
    } else {
        digits(n as nat)
    }
}

/// Appends the decimal digits of `m`.
fn push_digits(m: u64, out: &mut Vec<u8>)
    ensures
        final(out)@ == old(out)@ + digits(m as nat),
    decreases m,
{
    if m >= 10 {
        push_digits(m / 10, out);
    }
    out.push((m % 10) as u8 + 48);
    assert(final(out)@ =~= old(out)@ + digits(m as nat));
}

/// The decimal text of `n`.
fn decimal_text(n: i64) -> (r: Vec<u8>)
    ensures
        r@ == decimal_bytes(n as int),
{
    let mut r: Vec<u8> = Vec::new();
    if n < 0 {
        r.push(45);
        let magnitude: u64 = (0i128 - n as i128) as u64;
        push_digits(magnitude, &mut r);
    } else {
        push_digits(n as u64, &mut r);
        assert(r@ =~= digits(n as nat));
    }
    r
}

/// What `String::from_utf8` makes of a byte sequence: `None` where it is not UTF-8.
pub uninterp spec fn utf8_decoded(b: Seq<u8>) -> Option<Seq<char>>;

/// Relies on `String::from_utf8`: decodes valid UTF-8, fails on anything else; no
/// bytes decode to the empty text.
#[verifier::external_body]
fn decode_utf8(b: Vec<u8>) -> (r: Option<String>)
    ensures
        match r {
            Some(s) => utf8_decoded(b@) == Some(s@),
            None => utf8_decoded(b@).is_none(),
        },
        b@.len() == 0 ==> r is Some && r->Some_0@.len() == 0,
{
    String::from_utf8(b).ok()
}

/// What `str::trim` leaves of a text: leading and trailing white space removed.
pub uninterp spec fn trimmed(s: Seq<char>) -> Seq<char>;

/// Relies on `str::trim`: an empty text stays empty.
#[verifier::external_body]
fn trim_text(s: &String) -> (r: String)
    ensures
        r@ == trimmed(s@),
        s@.len() == 0 ==> r@.len() == 0,
{
    s.trim().to_string()
}

pub open spec fn is_digit(c: char) -> bool {
    '0' <= c && c <= '9'
}

/// The value of a non-empty run of decimal digits.
pub open spec fn digits_value(s: Seq<char>) -> int
    decreases s.len(),
{
    if s.len() == 0 {
        0
    } else {
        digits_value(s.drop_last()) * 10 + (s.last() as int - '0' as int)
    }
}

/// The text starts with a sign.
pub open spec fn has_sign(s: Seq<char>) -> bool {
    s.len() > 0 && (s[0] == '-' || s[0] == '+')
}

/// The text after its sign, if any.
pub open spec fn unsigned_part(s: Seq<char>) -> Seq<char> {
    if has_sign(s) {
        s.drop_first()
    } else {
        s
    }
}

/// A signed decimal as `i64::from_str` reads it: an optional `+` or `-`, then one or
/// more digits, and a value within range.
pub open spec fn decimal_value(s: Seq<char>) -> Option<i64> {
    let body = unsigned_part(s);
    let magnitude = digits_value(body);
    let v = if has_sign(s) && s[0] == '-' {
        -magnitude
    } else {
        magnitude
    };
    if body.len() > 0 && (forall|i: int| 0 <= i < body.len() ==> is_digit(#[trigger] body[i]))
        && i64::MIN <= v <= i64::MAX {
        Some(v as i64)
    } else {
        None
    }
}

proof fn lemma_digits_value_nonneg(s: Seq<char>)
    requires
        forall|i: int| 0 <= i < s.len() ==> is_digit(#[trigger] s[i]),
    ensures
        digits_value(s) >= 0,
    decreases s.len(),
{
    if s.len() > 0 {
        lemma_digits_value_nonneg(s.drop_last());
    }
}

/// Over digits, a prefix never has a larger value than the whole.
proof fn lemma_digits_value_prefix(s: Seq<char>, k: int)
    requires
        forall|i: int| 0 <= i < s.len() ==> is_digit(#[trigger] s[i]),
        0 <= k <= s.len(),
    ensures
        0 <= digits_value(s.take(k)) <= digits_value(s),
    decreases s.len(),
{
    if k == s.len() {
        assert(s.take(k) =~= s);
        lemma_digits_value_nonneg(s);
    } else {
        let d = s.drop_last();
        lemma_digits_value_prefix(d, k);
        assert(d.take(k) =~= s.take(k));
        lemma_digits_value_nonneg(d);
    }
}

/// Reads a signed decimal as `i64::from_str` does.
fn parse_decimal(s: &String) -> (r: Option<i64>)
    ensures
        r == decimal_value(s@),
{
    let text: &str = s.as_str();
    let n = text.unicode_len();
    if n == 0 {
        return None;
    }
    let first = text.get_char(0);
    let signed = first == '-' || first == '+';
    let start: usize = if signed {
        1
    } else {
        0
    };
    let ghost body = unsigned_part(s@);
    assert(body =~= s@.subrange(start as int, n as int));
    if start >= n {
        return None;
    }
    let mut v: i128 = 0;
    let mut i: usize = start;
    while i < n
        invariant
            start <= i <= n,
            n == s@.len(),
            text@ == s@,
            body == s@.subrange(start as int, n as int),
            body == unsigned_part(s@),
            forall|j: int| 0 <= j < i - start ==> is_digit(#[trigger] body[j]),
            v == digits_value(body.take(i - start)),
            0 <= v <= 9223372036854775808,
        decreases n - i,
    {
        let c = text.get_char(i);
        if c < '0' || c > '9' {
            assert(!is_digit(body[i - start]));
            return None;
        }
        let ghost pre = body.take(i - start);
        v = v * 10 + (c as u32 - 48) as i128;
        i = i + 1;
        assert(body.take(i - start).drop_last() =~= pre);
        if v > 9223372036854775808 {
            proof {
                if forall|j: int| 0 <= j < body.len() ==> is_digit(#[trigger] body[j]) {
                    lemma_digits_value_prefix(body, i - start);
                }
            }
            return None;
        }
    }
    assert(body.take(n - start) =~= body);
    if first == '-' {
        Some((0 - v) as i64)
    } else if v <= 9223372036854775807 {
        Some(v as i64)
    } else {
        None
    }
}

/// The length of the first line of `s`, its newline included.
pub open spec fn line_len(s: Seq<u8>) -> nat
    decreases s.len(),
{
    if s.len() == 0 {
        0
    } else if s[0] == 10 {
        1
    } else {
        1 + line_len(s.drop_first())
    }
}

proof fn lemma_line_len_bound(s: Seq<u8>)
    ensures
        line_len(s) <= s.len(),
    decreases s.len(),
{
    if s.len() > 0 {
        lemma_line_len_bound(s.drop_first());
    }
}

/// The integer that `geti` reads from a line: the trimmed text parsed as a decimal.
pub open spec fn line_value(line: Seq<u8>) -> Option<i64> {
    if line.len() == 0 {
        // end of input: there is no number to read
        None
    } else {
        match utf8_decoded(line) {
            Some(text) => decimal_value(trimmed(text)),
            None => None,
        }
    }
}

/// The bytes that print a character with code `b` (UTF-8 of a code point below 256).
pub open spec fn char_bytes(b: u8) -> Seq<u8> {
    if b < 128 {
        seq![b]
    } else {
        seq![(0xC0 | (b >> 6)) as u8, (0x80 | (b & 0x3F)) as u8]
    }
}

/// The program's byte streams: the input not yet read and the output written so far.
#[derive(Debug)]
pub struct Streams {
    input: Vec<u8>,
    pos: usize,
    output: Vec<u8>,
}

impl Streams {
    pub closed spec fn wf(&self) -> bool {
        self.pos <= self.input@.len()
    }

    /// Input that is still to be read.
    pub closed spec fn pending(&self) -> Seq<u8> {
        self.input@.subrange(self.pos as int, self.input@.len() as int)
    }

    /// Output written so far.
    pub closed spec fn written(&self) -> Seq<u8> {
        self.output@
    }

    pub fn new(input: Vec<u8>) -> (r: Streams)
        ensures
            r.wf(),
            r.pending() == input@,
            r.written().len() == 0,
    {
        let r = Streams { input, pos: 0, output: Vec::new() };
        assert(r.pending() =~= r.input@);
        r
    }

    /// Appends `more` to the input still to be read.
    pub fn feed(&mut self, more: &Vec<u8>)
        requires
            old(self).wf(),
        ensures
            final(self).wf(),
            final(self).pending() == old(self).pending() + more@,
            final(self).written() == old(self).written(),
    {
        let ghost start = self.input@;
        let mut i: usize = 0;
        while i < more.len()
            invariant
                self.pos == old(self).pos,
                self.output == old(self).output,
                start == old(self).input@,
                start.len() >= self.pos,
                i <= more@.len(),
                self.input@ == start + more@.subrange(0, i as int),
            decreases more@.len() - i,
        {
            self.input.push(more[i]);
            i = i + 1;
            assert(self.input@ =~= start + more@.subrange(0, i as int));
        }
        assert(more@.subrange(0, i as int) =~= more@);
        assert(self.pending() =~= old(self).pending() + more@);
    }

    pub fn output(&self) -> (r: &Vec<u8>)
        ensures
            r@ == self.written(),
    {
        &self.output
    }

    fn write(&mut self, bytes: &Vec<u8>)
        requires
            old(self).wf(),
        ensures
            final(self).wf(),
            final(self).pending() == old(self).pending(),
            final(self).written() == old(self).written() + bytes@,
    {
        let ghost start = self.output@;
        let mut i: usize = 0;
        while i < bytes.len()
            invariant
                self.wf(),
                self.pending() == old(self).pending(),
                i <= bytes@.len(),
                self.output@ == start + bytes@.subrange(0, i as int),
            decreases bytes@.len() - i,
        {
            self.output.push(bytes[i]);
            i = i + 1;
            assert(self.output@ =~= start + bytes@.subrange(0, i as int));
        }
        assert(bytes@.subrange(0, i as int) =~= bytes@);
    }

    /// Writes the character with code `b`.
    fn put_char(&mut self, b: u8)
        requires
            old(self).wf(),
        ensures
            final(self).wf(),
            final(self).pending() == old(self).pending(),
            final(self).written() == old(self).written() + char_bytes(b),
    {
        if b < 128 {
            self.output.push(b);
            assert(self.output@ =~= old(self).written() + char_bytes(b));
        } else {
            self.output.push(0xC0 | (b >> 6));
            self.output.push(0x80 | (b & 0x3F));
            assert(self.output@ =~= old(self).written() + char_bytes(b));
        }
    }

    /// Reads one byte; `None` at the end of the input.
    fn get_byte(&mut self) -> (r: Option<u8>)
        requires
            old(self).wf(),
        ensures
            final(self).wf(),
            final(self).written() == old(self).written(),
            old(self).pending().len() == 0 ==> r.is_none() && final(self).pending() == old(
                self,
            ).pending(),
            old(self).pending().len() > 0 ==> r == Some(old(self).pending()[0])
                && final(self).pending() == old(self).pending().drop_first(),
    {
        if self.pos < self.input.len() {
            let b = self.input[self.pos];
            self.pos = self.pos + 1;
            assert(self.pending() =~= old(self).pending().drop_first());
            Some(b)
        } else {
            None
        }
    }

    /// Reads the next line, its newline included; empty at the end of the input.
    fn get_line(&mut self) -> (r: Vec<u8>)
        requires
            old(self).wf(),
        ensures
            final(self).wf(),
            final(self).written() == old(self).written(),
            line_len(old(self).pending()) <= old(self).pending().len(),
            r@ == old(self).pending().take(line_len(old(self).pending()) as int),
            final(self).pending() == old(self).pending().skip(line_len(old(self).pending()) as int),
    {
        let ghost rest = self.pending();
        let n = self.input.len();
        let mut line: Vec<u8> = Vec::new();
        let mut j: usize = self.pos;
        while j < n && self.input[j] != 10
            invariant
                self == old(self),
                n == self.input@.len(),
                self.pos <= j <= n,
                rest == self.input@.subrange(self.pos as int, n as int),
                line@ == self.input@.subrange(self.pos as int, j as int),
                line_len(rest) == (j - self.pos) + line_len(self.input@.subrange(j as int, n as int)),
            decreases n - j,
        {
            let ghost here = self.input@.subrange(j as int, n as int);
            assert(here.drop_first() =~= self.input@.subrange(j + 1, n as int));
            line.push(self.input[j]);
            j = j + 1;
            assert(line@ =~= self.input@.subrange(self.pos as int, j as int));
        }
        if j < n {
            line.push(self.input[j]);
            j = j + 1;
        }
        proof {
            lemma_line_len_bound(rest);
        }
        assert(line@ =~= rest.take(line_len(rest) as int));
        self.pos = j;
        assert(self.pending() =~= rest.skip(line_len(rest) as int));
        line
    }
}

/// Where built-in `op` needs argument `i` to be an integer.
pub open spec fn needs_int(op: External, i: int) -> bool {
    match op {
        External::geti | External::getc | External::seq => false,
        External::neg | External::chr | External::ord | External::puti | External::putc => i == 0,
        _ => i == 0 || i == 1,
    }
}

/// The arguments fit `op`: the right count, integers where it needs them.
pub open spec fn args_fit(op: External, args: Seq<Rc<Value>>) -> bool {
    &&& args.len() == external_arity(op)
    &&& forall|i: int| 0 <= i < args.len() && needs_int(op, i) ==> is_num(*#[trigger] args[i])
}

/// The fault, if any, of applying `op` to `args` with `pending` input.
pub open spec fn builtin_fault(op: External, args: Seq<Rc<Value>>, pending: Seq<u8>) -> Option<
    Fault,
> {
    if args.len() != external_arity(op) {
        Some(Fault::ArityMismatch)
    } else if !args_fit(op, args) {
        Some(Fault::NotAnInt)
    } else if op == External::geti && line_value(pending.take(line_len(pending) as int)).is_none() {
        Some(Fault::BadInput)
    } else {
        None
    }
}

/// What a fitting application of `op` to `args` returns and how it moves the streams
/// from `pending`/`written` to `pending2`/`written2`.
pub open spec fn builtin_result(
    op: External,
    args: Seq<Rc<Value>>,
    pending: Seq<u8>,
    written: Seq<u8>,
    v: Value,
    pending2: Seq<u8>,
    written2: Seq<u8>,
) -> bool {
    let a = num_of(*args[0]);
    let b = if args.len() > 1 {
        num_of(*args[1])
    } else {
        0
    };
    let int_result = |n: i64| v == Value::Num(n) && pending2 == pending && written2 == written;
    let bool_result = |c: bool|
        is_nullary(v, bool_tag(c)) && pending2 == pending && written2 == written;
    match op {
        External::add => int_result(a.wrapping_add(b)),
        External::sub => int_result(a.wrapping_sub(b)),
        External::mul => int_result(a.wrapping_mul(b)),
        External::neg => int_result(0i64.wrapping_sub(a)),
        External::eq => bool_result(a == b),
        External::le => bool_result(a <= b),
        External::lt => bool_result(a < b),
        External::gt => bool_result(a > b),
        External::ge => bool_result(a >= b),
        External::chr => int_result(a & 0xFF),
        External::ord => int_result(a),
        External::puti => is_nullary(v, 0) && pending2 == pending && written2 == written
            + decimal_bytes(a as int) + seq![10u8],
        External::putc => is_nullary(v, 0) && pending2 == pending && written2 == written
            + char_bytes(a as u8),
        External::geti => {
            let k = line_len(pending) as int;
            &&& line_value(pending.take(k)) == Some(num_of(v))
            &&& is_num(v)
            &&& pending2 == pending.skip(k)
            &&& written2 == written
        },
        External::getc => {
            &&& pending.len() == 0 ==> v == Value::Num(-1i64) && pending2 == pending
            &&& pending.len() > 0 ==> v == Value::Num(pending[0] as i64) && pending2
                == pending.drop_first()
            &&& written2 == written
        },
        External::seq => v == *args[1] && pending2 == pending && written2 == written,
    }
}

pub(crate) proof fn lemma_builtin_wf(
    op: External,
    args: Seq<Rc<Value>>,
    pending: Seq<u8>,
    written: Seq<u8>,
    v: &Value,
    pending2: Seq<u8>,
    written2: Seq<u8>,
)
    requires
        wf_values(args),
        args.len() == external_arity(op),
        builtin_result(op, args, pending, written, *v, pending2, written2),
    ensures
        wf_value(*v),
{
    if op == External::seq {
        assert(wf_value(*args[1]));
    } else {
        assert forall|d: nat| #[trigger] wf_depth(*v, d) by {}
    }
}

impl<'a> Value<'a> {
    pub fn rc_unit() -> (r: Rc<Self>)
        ensures
            is_nullary(*r, 0),
    {
        Rc::new(Value::Pack(0, Vec::new()))
    }

    /// `true` is the constructor with tag 1, `false` the one with tag 0.
    pub fn rc_from_bool(b: bool) -> (r: Rc<Self>)
        ensures
            is_nullary(*r, bool_tag(b)),
    {
        Rc::new(Value::Pack(if b { 1 } else { 0 }, Vec::new()))
    }

    pub fn rc_from_i64(n: i64) -> (r: Rc<Self>)
        ensures
            *r == Value::Num(n),
    {
        Rc::new(Value::Num(n))
    }

    pub fn as_i64(&self) -> (r: i64)
        requires
            is_num(*self),
        ensures
            r == num_of(*self),
    {
        match self {
            Value::Num(n) => *n,
            _ => 0,
        }
    }

    /// Applies built-in `name` to `args`, reading from and writing to `io`.
    pub fn eval_external(name: External, args: &Vec<Rc<Self>>, io: &mut Streams) -> (r: Result<
        Rc<Self>,
        Fault,
    >)
        requires
            old(io).wf(),
        ensures
            final(io).wf(),
            name == External::geti && args_fit(name, args@) && old(io).pending().len() == 0 ==> r
                == Err::<Rc<Self>, Fault>(Fault::BadInput),
            match builtin_fault(name, args@, old(io).pending()) {
                Some(f) => {
                    &&& r == Err::<Rc<Self>, Fault>(f)
                    &&& f != Fault::BadInput ==> final(io).pending() == old(io).pending()
                    &&& final(io).written() == old(io).written()
                },
                None => r is Ok && builtin_result(
                    name,
                    args@,
                    old(io).pending(),
                    old(io).written(),
                    *r->Ok_0,
                    final(io).pending(),
                    final(io).written(),
                ),
            },
    {
        if args.len() != name.arity() {
            return Err(Fault::ArityMismatch);
        }
        if args.len() >= 1 && needs_int_at(name, 0) && !args[0].is_num() {
            return Err(Fault::NotAnInt);
        }
        if args.len() >= 2 && needs_int_at(name, 1) && !args[1].is_num() {
            return Err(Fault::NotAnInt);
        }
        assert(args_fit(name, args@));
        match name {
            External::add => Ok(Value::rc_from_i64(args[0].as_i64().wrapping_add(args[1].as_i64()))),
            External::sub => Ok(Value::rc_from_i64(args[0].as_i64().wrapping_sub(args[1].as_i64()))),
            External::mul => Ok(Value::rc_from_i64(args[0].as_i64().wrapping_mul(args[1].as_i64()))),
            External::neg => Ok(Value::rc_from_i64(0i64.wrapping_sub(args[0].as_i64()))),
            External::eq => Ok(Value::rc_from_bool(args[0].as_i64() == args[1].as_i64())),
            External::le => Ok(Value::rc_from_bool(args[0].as_i64() <= args[1].as_i64())),
            External::lt => Ok(Value::rc_from_bool(args[0].as_i64() < args[1].as_i64())),
            External::gt => Ok(Value::rc_from_bool(args[0].as_i64() > args[1].as_i64())),
            External::ge => Ok(Value::rc_from_bool(args[0].as_i64() >= args[1].as_i64())),
            External::chr => Ok(Value::rc_from_i64(args[0].as_i64() & 0xFF)),
            External::ord => Ok(Value::rc_from_i64(args[0].as_i64())),
            External::puti => {
                let n = args[0].as_i64();
                let mut text = decimal_text(n);
                text.push(10);
                io.write(&text);
                assert(io.written() =~= old(io).written() + decimal_bytes(n as int) + seq![10u8]);
                Ok(Value::rc_unit())
            },
            External::putc => {
                io.put_char(#[verifier::truncate] (args[0].as_i64() as u8));
                Ok(Value::rc_unit())
            },
            External::geti => {
                let line = io.get_line();
                let n = match decode_utf8(line) {
                    Some(text) => parse_decimal(&trim_text(&text)),
                    None => None,
                };
                match n {
                    Some(n) => Ok(Value::rc_from_i64(n)),
                    None => Err(Fault::BadInput),
                }
            },
            External::getc => {
                let n: i64 = match io.get_byte() {
                    Some(b) => b as i64,
                    None => -1,
                };
                Ok(Value::rc_from_i64(n))
            },
            External::seq => Ok(Rc::clone(&args[1])),
        }
    }

    fn is_num(&self) -> (r: bool)
        ensures
            r == is_num(*self),
    {
        match self {
            Value::Num(_) => true,
            _ => false,
        }
    }
}

fn needs_int_at(op: External, i: usize) -> (r: bool)
    ensures
        r == needs_int(op, i as int),
{
    match op {
        External::geti | External::getc | External::seq => false,
        External::neg | External::chr | External::ord | External::puti | External::putc => i == 0,
        _ => i == 0 || i == 1,
    }
}

} // verus!
