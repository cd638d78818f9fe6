//! Tokenizer for the body of a CSI sequence: the bytes between `ESC [` and
//! the final byte, the final byte included.
use vstd::prelude::*;

verus! {

/// One token of a CSI body.
#[derive(Clone, Copy, PartialEq, Eq, Debug, Structural)]
pub enum CSIPart {
    /// A `;`-separated parameter, absent when no digits were given.
    Param(Option<u16>),
    /// A `:`-separated sub-parameter, absent when no digits were given.
    SubParam(Option<u16>),
    Question,
    Eq,
    Gt,
    Lt,
    /// A byte in `0x20..=0x2F`.
    Intermediate(u8),
    /// A byte in `0x40..=0x7E`; it ends the body.
    Final(u8),
}

/// `0` to `9`.
pub open spec fn is_digit(b: u8) -> bool {
    0x30 <= b <= 0x39
}

/// An intermediate byte: `0x20..=0x2F`.
pub open spec fn is_intermediate(b: u8) -> bool {
    0x20 <= b <= 0x2F
}

/// A final byte: `0x40..=0x7E`.
pub open spec fn is_final(b: u8) -> bool {
    0x40 <= b <= 0x7E
}

/// `<`, `=`, `>` or `?`.
pub open spec fn is_marker(b: u8) -> bool {
    0x3C <= b <= 0x3F
}

/// The number of leading decimal digits of `s`.
pub open spec fn digit_run(s: Seq<u8>) -> nat
    decreases s.len(),
{
    if s.len() > 0 && is_digit(s[0]) {
        1 + digit_run(s.drop_first())
    } else {
        0
    }
}

/// The decimal number that the digits `s` spell, computed with `u16`
/// wrapping arithmetic.
pub open spec fn decimal(s: Seq<u8>) -> u16
    decreases s.len(),
{
    if s.len() == 0 {
        0
    } else {
        let shifted = (decimal(s.drop_last()) * 10) % 0x10000;
        ((shifted + (s.last() - 0x30)) % 0x10000) as u16
    }
}

/// The value of the digit run that starts `s`, absent when there is none.
pub open spec fn leading_value(s: Seq<u8>) -> Option<u16> {
    if digit_run(s) == 0 {
        None
    } else {
        Some(decimal(s.take(digit_run(s) as int)))
    }
}

/// The token at the front of `s`, how many bytes it takes, and whether the
/// tokenizer is still at the start of the body afterwards.
///
/// At the start, any byte but a digit or a private marker (and the end of
/// input) is preceded by an absent parameter, which takes no byte. A byte
/// that fits no token ends the tokens; it is taken all the same.
#[verifier::opaque]
pub open spec fn token(s: Seq<u8>, start: bool) -> (Option<CSIPart>, nat, bool) {
    if start && (s.len() == 0 || !(is_digit(s[0]) || is_marker(s[0]))) {
        (Some(CSIPart::Param(None)), 0, false)
    } else if s.len() == 0 {
        (None, 0, start)
    } else {
        let b = s[0];
        if b == 0x3F {
            (Some(CSIPart::Question), 1, start)
        } else if b == 0x3D {
            (Some(CSIPart::Eq), 1, start)
        } else if b == 0x3E {
            (Some(CSIPart::Gt), 1, start)
        } else if b == 0x3C {
            (Some(CSIPart::Lt), 1, start)
        } else if is_intermediate(b) {
            (Some(CSIPart::Intermediate(b)), 1, false)
        } else if is_final(b) {
            (Some(CSIPart::Final(b)), 1, false)
        } else if b == 0x3A {
            let t = s.drop_first();
            (Some(CSIPart::SubParam(leading_value(t))), 1 + digit_run(t), false)
        } else if b == 0x3B {
            let t = s.drop_first();
            (Some(CSIPart::Param(leading_value(t))), 1 + digit_run(t), false)
        } else if is_digit(b) {
            (Some(CSIPart::Param(leading_value(s))), digit_run(s), false)
        } else {
            (None, 1, false)
        }
    }
}

/// The measure that each token lowers.
pub open spec fn token_measure(s: Seq<u8>, start: bool) -> nat {
    2 * s.len() + if start { 1nat } else { 0nat }
}

/// A digit run lies within its sequence.
pub proof fn lemma_digit_run_bound(s: Seq<u8>)
    ensures
        digit_run(s) <= s.len(),
    decreases s.len(),
{
    if s.len() > 0 && is_digit(s[0]) {
        lemma_digit_run_bound(s.drop_first());
    }
}

/// A run of `k` digits that ends the sequence or a non-digit is its digit run.
pub proof fn lemma_digit_run_exact(s: Seq<u8>, k: nat)
    requires
        k <= s.len(),
        forall|i: int| 0 <= i < k ==> is_digit(#[trigger] s[i]),
        k == s.len() || !is_digit(s[k as int]),
    ensures
        digit_run(s) == k,
    decreases k,
{
    if k > 0 {
        let t = s.drop_first();
        assert forall|i: int| 0 <= i < k - 1 implies is_digit(#[trigger] t[i]) by {
            assert(t[i] == s[i + 1]);
        }
        if k < s.len() {
            assert(t[k - 1] == s[k as int]);
        }
        lemma_digit_run_exact(t, (k - 1) as nat);
    }
}

/// A token takes no more than is there, and each token lowers the measure.
pub proof fn lemma_token_progress(s: Seq<u8>, start: bool)
    ensures
        token(s, start).1 <= s.len(),
        token(s, start).0 is Some ==> token_measure(s.skip(token(s, start).1 as int), token(s, start).2)
            < token_measure(s, start),
{
    reveal(token);
    if s.len() > 0 {
        lemma_digit_run_bound(s);
        lemma_digit_run_bound(s.drop_first());
        if is_digit(s[0]) {
            assert(digit_run(s) >= 1);
        }
    }
}

/// All tokens of `s`, up to the first place where none fits.
pub open spec fn tokens(s: Seq<u8>, start: bool) -> Seq<CSIPart>
    decreases token_measure(s, start),
{
    let (t, n, st) = token(s, start);
    proof { lemma_token_progress(s, start); }
    match t {
        Some(part) => seq![part] + tokens(s.skip(n as int), st),
        None => Seq::empty(),
    }
}

/// The bytes that each token of `tokens(s, start)` was read from.
pub open spec fn token_spans(s: Seq<u8>, start: bool) -> Seq<Seq<u8>>
    decreases token_measure(s, start),
{
    let (t, n, st) = token(s, start);
    proof { lemma_token_progress(s, start); }
    match t {
        Some(_) => seq![s.take(n as int)] + token_spans(s.skip(n as int), st),
        None => Seq::empty(),
    }
}

/// What is left of `s` when no further token fits.
pub open spec fn leftover(s: Seq<u8>, start: bool) -> Seq<u8>
    decreases token_measure(s, start),
{
    let (t, n, st) = token(s, start);
    proof { lemma_token_progress(s, start); }
    match t {
        Some(_) => leftover(s.skip(n as int), st),
        None => s,
    }
}

/// The sequences of `parts`, one after another.
pub open spec fn concat(parts: Seq<Seq<u8>>) -> Seq<u8>
    decreases parts.len(),
{
    if parts.len() == 0 {
        Seq::empty()
    } else {
        parts[0] + concat(parts.drop_first())
    }
}

/// Tokenizing loses no byte: the spans of the tokens, followed by what no
/// token took, give back the body; one token per span. A body that the
/// tokenizer reads to its end is rebuilt exactly from its spans.
pub proof fn lemma_tokenize_round_trip(s: Seq<u8>, start: bool)
    ensures
        concat(token_spans(s, start)) + leftover(s, start) == s,
        token_spans(s, start).len() == tokens(s, start).len(),
        leftover(s, start).len() == 0 ==> concat(token_spans(s, start)) == s,
    decreases token_measure(s, start),
{
    let (t, n, st) = token(s, start);
    lemma_token_progress(s, start);
    if t is Some {
        lemma_tokenize_round_trip(s.skip(n as int), st);
        let rest = token_spans(s.skip(n as int), st);
        assert((seq![s.take(n as int)] + rest).drop_first() == rest);
        assert(s.take(n as int) + s.skip(n as int) == s);
        assert(concat(token_spans(s, start)) + leftover(s, start)
            == s.take(n as int) + (concat(rest) + leftover(s.skip(n as int), st)));
    } else {
        assert(concat(Seq::<Seq<u8>>::empty()) + s == s);
    }
}

/// A tokenizer over a CSI body: a window into borrowed bytes, read from the
/// front. Two tokenizers are equal when they have the same bytes left and
/// agree on whether they are at the start.
#[derive(Clone, Copy, Eq, Debug)]
pub struct CSIParser<'a> {
    bytes: &'a [u8],
    front: usize,
    back: usize,
    start: bool,
}

impl<'a> CSIParser<'a> {
    /// The window `front..back` lies within the bytes.
    pub closed spec fn wf(self) -> bool {
        self.front <= self.back <= self.bytes@.len()
    }

    /// The bytes not taken yet.
    pub closed spec fn rest(self) -> Seq<u8> {
        self.bytes@.subrange(self.front as int, self.back as int)
    }

    /// Whether no parameter has been read yet.
    pub closed spec fn at_start(self) -> bool {
        self.start
    }

    /// This parser after taking `n` bytes from the front.
    pub closed spec fn skip_front(self, n: nat, start: bool) -> Self {
        CSIParser { front: (self.front + n) as usize, start, ..self }
    }

    /// A tokenizer over all of `input`, at its start.
    pub closed spec fn from_slice(input: &'a [u8]) -> Self {
        CSIParser { bytes: input, front: 0, back: input@.len() as usize, start: true }
    }

    /// This parser after dropping the last byte.
    pub closed spec fn drop_back(self) -> Self {
        CSIParser { back: (self.back - 1) as usize, ..self }
    }

    /// Taking `n` bytes from the front takes them from `rest()`.
    pub proof fn lemma_skip_front(self, n: nat, start: bool)
        requires
            self.wf(),
            n <= self.rest().len(),
        ensures
            self.skip_front(n, start).wf(),
            self.skip_front(n, start).rest() == self.rest().skip(n as int),
            self.skip_front(n, start).at_start() == start,
    {
    }

    /// Dropping the last byte drops it from `rest()`.
    pub proof fn lemma_drop_back(self)
        requires
            self.wf(),
            self.rest().len() > 0,
        ensures
            self.drop_back().wf(),
            self.drop_back().rest() == self.rest().drop_last(),
            self.drop_back().at_start() == self.at_start(),
    {
    }

    /// The next token and the parser after it.
    pub open spec fn step(self) -> (Option<CSIPart>, Self) {
        let (t, n, st) = token(self.rest(), self.at_start());
        (t, self.skip_front(n, st))
    }

    /// A tokenizer over `input`, at its start.
    pub fn new(input: &'a [u8]) -> (r: Self)
        ensures
            r == CSIParser::from_slice(input),
            r.wf(),
            r.rest() == input@,
            r.at_start(),
    {
        CSIParser { bytes: input, front: 0, back: input.len(), start: true }
    }

    fn peek_first(&self) -> (r: Option<u8>)
        requires
            self.wf(),
        ensures
            r == (if self.rest().len() > 0 { Some(self.rest()[0]) } else { None::<u8> }),
    {
        if self.front < self.back {
            Some(self.bytes[self.front])
        } else {
            None
        }
    }

    /// The next token, taken from the front.
    pub fn next(&mut self) -> (r: Option<CSIPart>)
        requires
            old(self).wf(),
        ensures
            final(self).wf(),
            (r, *final(self)) == old(self).step(),
    {
        proof {
            reveal(token);
            lemma_token_progress(self.rest(), self.start);
        }
        let first = self.peek_first();
        if self.start {
            match first {
                Some(b) if (0x30 <= b && b <= 0x39) || (0x3C <= b && b <= 0x3F) => {},
                _ => {
                    self.start = false;
                    proof { assert(self.rest() == old(self).rest().skip(0)); }
                    return Some(CSIPart::Param(None));
                },
            }
        }
        let b = match first {
            Some(b) => b,
            None => return None,
        };
        let ghost s = self.rest();
        self.front = self.front + 1;
        if b == 0x3F {
            return Some(CSIPart::Question);
        } else if b == 0x3D {
            return Some(CSIPart::Eq);
        } else if b == 0x3E {
            return Some(CSIPart::Gt);
        } else if b == 0x3C {
            return Some(CSIPart::Lt);
        }
        self.start = false;
        if 0x20 <= b && b <= 0x2F {
            return Some(CSIPart::Intermediate(b));
        } else if 0x40 <= b && b <= 0x7E {
            return Some(CSIPart::Final(b));
        }
        let sub = b == 0x3A;
        let mut value: Option<u16> = None;
        if 0x30 <= b && b <= 0x39 {
            value = Some((b - 0x30) as u16);
        } else if b != 0x3A && b != 0x3B {
            return None;
        }
        let ghost from: int = if value is Some { 0 } else { 1 };
        proof {
            assert(s.subrange(from, self.front - old(self).front) =~= s.subrange(from, 1));
            if value is Some {
                assert(decimal(s.subrange(0, 1)) == b - 0x30) by {
                    assert(s.subrange(0, 1).drop_last() =~= Seq::<u8>::empty());
                    assert(decimal(Seq::<u8>::empty()) == 0);
                }
            }
        }
        while self.front < self.back && 0x30 <= self.bytes[self.front] && self.bytes[self.front] <= 0x39
            invariant
                self.bytes == old(self).bytes,
                self.back == old(self).back,
                old(self).front + 1 <= self.front <= self.back <= self.bytes@.len(),
                s == old(self).bytes@.subrange(old(self).front as int, old(self).back as int),
                self.start == false,
                s.len() > 0 && s[0] == b,
                from == (if is_digit(b) { 0int } else { 1int }),
                forall|k: int| from <= k < self.front - old(self).front ==> is_digit(#[trigger] s[k]),
                value is None <==> self.front - old(self).front == from,
                value matches Some(v) ==> v == decimal(s.subrange(from, self.front - old(self).front)),
            decreases self.back - self.front,
        {
            let d = (self.bytes[self.front] - 0x30) as u16;
            let ghost k = self.front - old(self).front;
            proof {
                let t = s.subrange(from, k + 1);
                assert(t.drop_last() =~= s.subrange(from, k));
                assert(t.last() == s[k]);
            }
            let ghost prev = value;
            value = match value {
                Some(v) => Some(v.wrapping_mul(10).wrapping_add(d)),
                None => Some(d),
            };
            proof {
                let t = s.subrange(from, k + 1);
                if k == from {
                    assert(t.drop_last() =~= Seq::<u8>::empty());
                    assert(decimal(Seq::<u8>::empty()) == 0);
                } else {
                    let v = prev->0;
                    let m = ((v * 10) % 0x10000) as u16;
                    assert(v.wrapping_mul(10) == m);
                    assert(value->0 == ((m + d) % 0x10000) as u16);
                }
            }
            self.front = self.front + 1;
        }
        proof {
            let n = self.front - old(self).front;
            let rest = old(self).rest();
            assert(rest == s);
            let t = s.subrange(from, s.len() as int);
            assert forall|k: int| 0 <= k < n - from implies is_digit(#[trigger] t[k]) by {
                assert(t[k] == s[k + from]);
            }
            if n < s.len() {
                assert(t[n - from] == s[n]);
                assert(s[n] == self.bytes@[self.front as int]);
            }
            lemma_digit_run_exact(t, (n - from) as nat);
            assert(t.take(n - from) =~= s.subrange(from, n));
            assert(s.skip(n) =~= self.rest());
            if from == 1 {
                assert(t =~= s.drop_first());
            } else {
                assert(t =~= s);
            }
        }
        if sub {
            Some(CSIPart::SubParam(value))
        } else {
            Some(CSIPart::Param(value))
        }
    }

    /// The private marker at the front and the parser after it, if the
    /// body starts with one.
    pub open spec fn spec_special_first(self) -> (Option<u8>, Self) {
        if self.rest().len() > 0 && is_marker(self.rest()[0]) {
            (Some(self.rest()[0]), self.skip_front(1, self.at_start()))
        } else {
            (None, self)
        }
    }

    /// The final byte at the back and the parser without it, if the body
    /// ends with one.
    pub open spec fn spec_final_identifier(self) -> (Option<u8>, Self) {
        if self.rest().len() > 0 && is_final(self.rest().last()) {
            (Some(self.rest().last()), self.drop_back())
        } else {
            (None, self)
        }
    }

    /// Whether no token is left.
    pub open spec fn spec_empty(self) -> bool {
        self.rest().len() == 0 || self.step().0 is None
    }

    /// Takes one of `<`, `=`, `>`, `?` from the front, if the body starts
    /// with it.
    pub fn special_first(&mut self) -> (r: Option<u8>)
        requires
            old(self).wf(),
        ensures
            final(self).wf(),
            (r, *final(self)) == old(self).spec_special_first(),
    {
        if self.front < self.back {
            let b = self.bytes[self.front];
            if 0x3C <= b && b <= 0x3F {
                proof { self.lemma_skip_front(1, self.start); }
                self.front = self.front + 1;
                return Some(b);
            }
        }
        None
    }

    /// Takes the final byte from the back, if the body ends with a byte in
    /// `0x40..=0x7E`.
    pub fn final_identifier(&mut self) -> (r: Option<u8>)
        requires
            old(self).wf(),
        ensures
            final(self).wf(),
            (r, *final(self)) == old(self).spec_final_identifier(),
    {
        if self.front < self.back {
            let b = self.bytes[self.back - 1];
            if 0x40 <= b && b <= 0x7E {
                self.back = self.back - 1;
                return Some(b);
            }
        }
        None
    }

    /// The next token, without taking it.
    pub fn peek(&self) -> (r: Option<CSIPart>)
        requires
            self.wf(),
        ensures
            r == self.step().0,
    {
        let mut copy = *self;
        copy.next()
    }

    /// Whether no token is left.
    pub fn empty(&self) -> (r: bool)
        requires
            self.wf(),
        ensures
            r == self.spec_empty(),
    {
        self.front == self.back || self.peek().is_none()
    }

    /// All tokens that are left, up to the first place where none fits.
    pub fn parts(&self) -> (r: Vec<CSIPart>)
        requires
            self.wf(),
        ensures
            r@ == tokens(self.rest(), self.at_start()),
    {
        let mut p = *self;
        let mut out: Vec<CSIPart> = Vec::new();
        loop
            invariant
                p.wf(),
                out@ + tokens(p.rest(), p.at_start()) == tokens(self.rest(), self.at_start()),
            decreases token_measure(p.rest(), p.at_start()),
        {
            proof {
                lemma_token_progress(p.rest(), p.at_start());
                p.lemma_skip_front(p.step().1.rest().len() as nat, p.at_start());
            }
            let ghost before = p;
            match p.next() {
                Some(part) => {
                    proof {
                        let (t, n, st) = token(before.rest(), before.at_start());
                        before.lemma_skip_front(n, st);
                        assert(out@.push(part) + tokens(p.rest(), p.at_start())
                            =~= out@ + tokens(before.rest(), before.at_start()));
                    }
                    out.push(part);
                },
                None => {
                    proof {
                        assert(out@ + Seq::<CSIPart>::empty() =~= out@);
                    }
                    return out;
                },
            }
        }
    }

    /// Reads one parameter for `param_walk`.
    pub open spec fn param_step(self, default: u16, sub: bool) -> (Option<u16>, bool, bool, Self) {
        let (t, next) = self.step();
        match t {
            Some(CSIPart::Param(v)) => if sub {
                (Some(default), false, false, self)
            } else {
                (Some(v.unwrap_or(default)), false, false, next)
            },
            Some(CSIPart::SubParam(v)) => if sub {
                (Some(v.unwrap_or(default)), false, false, next)
            } else {
                (Some(0), true, false, next)
            },
            Some(CSIPart::Intermediate(_)) | Some(CSIPart::Final(_)) | None => (Some(default), false, false, self),
            _ => (None, false, true, self),
        }
    }

    /// Reads one value per default: the values read, whether a token of the
    /// other kind stood in the way, whether a private marker stopped the
    /// reading, and the parser after it.
    pub open spec fn param_walk(self, defaults: Seq<u16>, sub: bool) -> (Seq<u16>, bool, bool, Self)
        decreases defaults.len(),
    {
        if defaults.len() == 0 {
            (Seq::empty(), false, false, self)
        } else {
            let (vals, failed, stopped, q) = self.param_walk(defaults.drop_last(), sub);
            if stopped {
                (vals, failed, true, q)
            } else {
                let (v, bad, stop, q2) = q.param_step(defaults.last(), sub);
                match v {
                    Some(x) => (vals.push(x), failed || bad, stop, q2),
                    None => (vals, failed, true, q2),
                }
            }
        }
    }

    /// What `parse_params` (`sub` false) or `parse_sub_params` (`sub` true)
    /// returns, and the parser after it.
    pub open spec fn fixed_params(self, defaults: Seq<u16>, sub: bool) -> (Option<Seq<u16>>, Self) {
        let (vals, failed, stopped, q) = self.param_walk(defaults, sub);
        (if failed || stopped { None } else { Some(vals) }, q)
    }

    fn read_one(&mut self, default: u16, sub: bool) -> (r: (Option<u16>, bool, bool))
        requires
            old(self).wf(),
        ensures
            final(self).wf(),
            (r.0, r.1, r.2, *final(self)) == old(self).param_step(default, sub),
    {
        proof {
            lemma_token_progress(self.rest(), self.at_start());
            let (t, n, st) = token(self.rest(), self.at_start());
            self.lemma_skip_front(n, st);
        }
        match self.peek() {
            Some(CSIPart::Param(p)) if !sub => {
                self.next();
                (Some(match p { Some(v) => v, None => default }), false, false)
            },
            Some(CSIPart::SubParam(p)) if sub => {
                self.next();
                (Some(match p { Some(v) => v, None => default }), false, false)
            },
            Some(CSIPart::SubParam(_)) => {
                self.next();
                (Some(0), true, false)
            },
            Some(CSIPart::Param(_)) | Some(CSIPart::Intermediate(_)) | Some(CSIPart::Final(_)) | None => {
                (Some(default), false, false)
            },
            _ => (None, false, true),
        }
    }

    fn read_fixed<const N: usize>(&mut self, default: [u16; N], sub: bool) -> (r: Option<[u16; N]>)
        requires
            old(self).wf(),
        ensures
            final(self).wf(),
            ({
                let (vals, q) = old(self).fixed_params(default@, sub);
                &&& *final(self) == q
                &&& r is Some == vals is Some
                &&& r matches Some(a) ==> a@ == vals->0
            }),
    {
        let mut result = [0u16; N];
        let mut fail = false;
        let mut i: usize = 0;
        while i < N
            invariant
                0 <= i <= N,
                self.wf(),
                ({
                    let (vals, failed, stopped, q) = old(self).param_walk(default@.take(i as int), sub);
                    &&& !stopped
                    &&& *self == q
                    &&& failed == fail
                    &&& vals == result@.take(i as int)
                }),
            decreases N - i,
        {
            proof {
                lemma_walk_push(*old(self), default@, i as nat, sub);
            }
            let ghost before = result@;
            let (v, bad, stop) = self.read_one(default[i], sub);
            match v {
                Some(x) => {
                    result[i] = x;
                    if bad {
                        fail = true;
                    }
                },
                None => {
                    proof {
                        lemma_walk_stays_stopped(*old(self), default@, (i + 1) as nat, sub);
                        assert(default@.take(N as int) =~= default@);
                    }
                    return None;
                },
            }
            proof {
                assert(result@.take(i + 1) =~= before.take(i as int).push(result@[i as int]));
            }
            i = i + 1;
        }
        proof {
            assert(default@.take(N as int) =~= default@);
            assert(result@.take(N as int) =~= result@);
        }
        if fail {
            return None;
        }
        Some(result)
    }

    /// Reads `N` parameters, each absent or missing one taking its default.
    /// Fails where a sub-parameter or a private marker stands instead.
    pub fn parse_params<const N: usize>(&mut self, default: [u16; N]) -> (r: Option<[u16; N]>)
        requires
            old(self).wf(),
        ensures
            final(self).wf(),
            ({
                let (vals, q) = old(self).fixed_params(default@, false);
                &&& *final(self) == q
                &&& r is Some == vals is Some
                &&& r matches Some(a) ==> a@ == vals->0
            }),
    {
        self.read_fixed(default, false)
    }

    /// Reads `N` sub-parameters, each absent or missing one taking its
    /// default. Fails where a private marker stands instead.
    pub fn parse_sub_params<const N: usize>(&mut self, default: [u16; N]) -> (r: Option<[u16; N]>)
        requires
            old(self).wf(),
        ensures
            final(self).wf(),
            ({
                let (vals, q) = old(self).fixed_params(default@, true);
                &&& *final(self) == q
                &&& r is Some == vals is Some
                &&& r matches Some(a) ==> a@ == vals->0
            }),
    {
        self.read_fixed(default, true)
    }
}

/// Reading `k + 1` values is reading `k` and then one more.
pub proof fn lemma_walk_push(p: CSIParser, defaults: Seq<u16>, k: nat, sub: bool)
    requires
        k < defaults.len(),
    ensures
        p.param_walk(defaults.take(k + 1int), sub) == ({
            let (vals, failed, stopped, q) = p.param_walk(defaults.take(k as int), sub);
            if stopped {
                (vals, failed, true, q)
            } else {
                let (v, bad, stop, q2) = q.param_step(defaults[k as int], sub);
                match v {
                    Some(x) => (vals.push(x), failed || bad, stop, q2),
                    None => (vals, failed, true, q2),
                }
            }
        }),
{
    assert(defaults.take(k + 1int).drop_last() =~= defaults.take(k as int));
    assert(defaults.take(k + 1int).last() == defaults[k as int]);
}

/// Once a private marker has stopped the reading, it stays stopped.
pub proof fn lemma_walk_stays_stopped(p: CSIParser, defaults: Seq<u16>, k: nat, sub: bool)
    requires
        k <= defaults.len(),
        p.param_walk(defaults.take(k as int), sub).2,
    ensures
        p.param_walk(defaults, sub).2,
        p.param_walk(defaults, sub).1 == p.param_walk(defaults.take(k as int), sub).1,
        p.param_walk(defaults, sub).3 == p.param_walk(defaults.take(k as int), sub).3,
    decreases defaults.len() - k,
{
    if k < defaults.len() {
        assert(defaults.take((k + 1) as int).drop_last() =~= defaults.take(k as int));
        lemma_walk_stays_stopped(p, defaults, k + 1, sub);
    } else {
        assert(defaults.take(k as int) =~= defaults);
    }
}

impl<'a> PartialEq for CSIParser<'a> {
    fn eq(&self, o: &CSIParser<'a>) -> (r: bool) {
        if !(self.front <= self.back && self.back <= self.bytes.len() && o.front <= o.back && o.back
            <= o.bytes.len()) {
            return false;
        }
        if self.start != o.start || self.back - self.front != o.back - o.front {
            proof {
                assert(self.rest().len() == self.back - self.front);
                assert(o.rest().len() == o.back - o.front);
            }
            return false;
        }
        let n = self.back - self.front;
        let mut i: usize = 0;
        while i < n
            invariant
                self.wf() && o.wf(),
                n == self.rest().len() == o.rest().len(),
                i <= n,
                forall|k: int| 0 <= k < i ==> self.rest()[k] == o.rest()[k],
            decreases n - i,
        {
            if self.bytes[self.front + i] != o.bytes[o.front + i] {
                proof {
                    assert(self.rest()[i as int] != o.rest()[i as int]);
                }
                return false;
            }
            i = i + 1;
        }
        proof {
            assert(self.rest() =~= o.rest());
        }
        true
    }
}

impl<'a> vstd::std_specs::cmp::PartialEqSpecImpl for CSIParser<'a> {
    open spec fn obeys_eq_spec() -> bool {
        true
    }

    open spec fn eq_spec(&self, o: &CSIParser<'a>) -> bool {
        &&& self.wf()
        &&& o.wf()
        &&& self.rest() == o.rest()
        &&& self.at_start() == o.at_start()
    }
}

} // verus!
