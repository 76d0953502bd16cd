//! Form state for the inputs that configure a test run: the destination
//! address and port, the load mode, the connection count, the plugin
//! selection, and the run/pause/stop buttons.
//!
//! Each container validates its text exactly the way the run setup later
//! interprets it, so a run can only be started from inputs the engine
//! accepts.

use vstd::arithmetic::div_mod::lemma_fundamental_div_mod;
use vstd::prelude::*;
use vstd::std_specs::iter::IteratorSpec;

verus! {

/// The characters of `s`, in order, as a vector.
pub fn chars_of(s: &str) -> (v: Vec<char>)
    ensures
        v@ == s@,
{
    let mut v: Vec<char> = Vec::new();
    for c in it: s.chars()
        invariant
            it.seq() == s@,
            v@ == it.seq().take(it.index() as int),
    {
        v.push(c);
    }
    assert(v@ =~= s@);
    v
}

/// Whether two character vectors hold the same text.
fn eq_chars(a: &Vec<char>, b: &Vec<char>) -> (r: bool)
    ensures
        r == (a@ == b@),
{
    if a.len() != b.len() {
        return false;
    }
    for i in 0..a.len()
        invariant
            a.len() == b.len(),
            forall|j: int| 0 <= j < i ==> a@[j] == b@[j],
    {
        if a[i] != b[i] {
            return false;
        }
    }
    assert(a@ =~= b@);
    true
}

/// A decimal digit.
pub open spec fn is_digit(c: char) -> bool {
    '0' <= c && c <= '9'
}

/// The numeric value of a decimal digit.
pub open spec fn digit_val(c: char) -> int {
    c as u32 - '0' as u32
}

/// The value of a string of decimal digits, most significant first.
pub open spec fn dec_value(s: Seq<char>) -> int
    decreases s.len(),
{
    if s.len() == 0 {
        0
    } else {
        dec_value(s.drop_last()) * 10 + digit_val(s.last())
    }
}

/// A non-empty string of decimal digits.
pub open spec fn is_dec_digits(s: Seq<char>) -> bool {
    s.len() > 0 && forall|i: int| 0 <= i < s.len() ==> is_digit(#[trigger] s[i])
}

/// The digits of a number's text: a single leading plus sign is not part of
/// the value.
pub open spec fn strip_plus(s: Seq<char>) -> Seq<char> {
    if s.len() > 0 && s[0] == '+' {
        s.drop_first()
    } else {
        s
    }
}

/// Whether `s` is accepted as an unsigned decimal number no greater than
/// `max`: an optional leading plus sign, then at least one digit, any number
/// of leading zeros allowed.
pub open spec fn parses_as_uint(s: Seq<char>, max: int) -> bool {
    is_dec_digits(strip_plus(s)) && dec_value(strip_plus(s)) <= max
}

proof fn lemma_dec_value_nonneg(s: Seq<char>)
    requires
        forall|i: int| 0 <= i < s.len() ==> is_digit(#[trigger] s[i]),
    ensures
        0 <= dec_value(s),
    decreases s.len(),
{
    if s.len() > 0 {
        lemma_dec_value_nonneg(s.drop_last());
        assert(0 <= dec_value(s.drop_last()) * 10) by (nonlinear_arith)
            requires
                0 <= dec_value(s.drop_last()),
        ;
    }
}

/// Appending digits can only grow a decimal value.
proof fn lemma_dec_value_prefix(s: Seq<char>, k: int)
    requires
        0 <= k <= s.len(),
        forall|i: int| 0 <= i < s.len() ==> is_digit(#[trigger] s[i]),
    ensures
        dec_value(s.take(k)) <= dec_value(s),
    decreases s.len() - k,
{
    if k < s.len() {
        lemma_dec_value_prefix(s, k + 1);
        assert(s.take(k + 1).drop_last() =~= s.take(k));
        assert(s.take(k + 1).last() == s[k]);
        assert(forall|i: int| 0 <= i < s.take(k).len() ==> is_digit(#[trigger] s.take(k)[i]));
        lemma_dec_value_nonneg(s.take(k));
        assert(dec_value(s.take(k)) <= dec_value(s.take(k)) * 10 + digit_val(s[k]))
            by (nonlinear_arith)
            requires
                0 <= dec_value(s.take(k)),
                0 <= digit_val(s[k]),
        ;
    } else {
        assert(s.take(k) =~= s);
    }
}

/// The value of the text in `v` as an unsigned decimal number no greater
/// than `max`, read exactly as the standard decimal parser for unsigned
/// integers reads it; nothing when the text is not such a number.
pub fn parse_uint(v: &Vec<char>, max: u64) -> (r: Option<u64>)
    ensures
        r is Some == parses_as_uint(v@, max as int),
        r is Some ==> r->0 == dec_value(strip_plus(v@)) && r->0 <= max,
{
    let start: usize = if v.len() > 0 && v[0] == '+' {
        1
    } else {
        0
    };
    let ghost t = v@.skip(start as int);
    proof {
        if start == 1 {
            assert(t =~= v@.drop_first());
        } else {
            assert(t =~= v@);
        }
    }
    assert(forall|j: int| 0 <= j < t.len() ==> t[j] == v@[j + start]);
    if v.len() == start {
        return None;
    }
    let mut acc: u64 = 0;
    let mut i: usize = start;
    while i < v.len()
        invariant
            start <= i <= v.len(),
            start <= 1 <= v.len(),
            (start == 1) == (v@.len() > 0 && v@[0] == '+'),
            t == v@.skip(start as int),
            t =~= (if v@.len() > 0 && v@[0] == '+' {
                v@.drop_first()
            } else {
                v@
            }),
            acc == dec_value(t.take(i - start)),
            acc <= max,
            forall|j: int| 0 <= j < i - start ==> is_digit(#[trigger] t[j]),
        decreases v.len() - i,
    {
        let c = v[i];
        if !('0' <= c && c <= '9') {
            assert(t[i - start] == c);
            assert(!is_dec_digits(t));
            return None;
        }
        let d = (c as u32 - 48) as u64;
        assert(d == digit_val(t[i - start]) && d <= 9);
        let ghost k = i - start;
        assert(t.take(k + 1).drop_last() =~= t.take(k));
        assert(t.take(k + 1).last() == t[k]);
        let exceeds = if d > max {
            true
        } else {
            let q = (max - d) / 10;
            proof {
                lemma_fundamental_div_mod((max - d) as int, 10);
            }
            acc > q
        };
        if exceeds {
            assert(dec_value(t.take(k + 1)) > max) by (nonlinear_arith)
                requires
                    dec_value(t.take(k + 1)) == acc * 10 + d,
                    d > max || (acc > (max - d) / 10 && (max - d) == 10 * ((max - d) / 10) + (max
                        - d) % 10 && 0 <= (max - d) % 10 < 10),
                    0 <= acc,
                    0 <= d,
                    0 <= max,
            ;
            proof {
                if is_dec_digits(t) {
                    lemma_dec_value_prefix(t, k + 1);
                }
            }
            return None;
        }
        assert(acc * 10 + d <= max) by (nonlinear_arith)
            requires
                d <= max,
                acc <= (max - d) / 10,
                (max - d) == 10 * ((max - d) / 10) + (max - d) % 10,
                0 <= (max - d) % 10,
                0 <= acc,
        ;
        acc = acc * 10 + d;
        i = i + 1;
    }
    assert(t.take(i - start) =~= t);
    assert(t.len() > 0);
    assert(is_dec_digits(t));
    Some(acc)
}

/// The digit character for a value below ten.
pub open spec fn digit_char(d: int) -> char {
    if d == 0 {
        '0'
    } else if d == 1 {
        '1'
    } else if d == 2 {
        '2'
    } else if d == 3 {
        '3'
    } else if d == 4 {
        '4'
    } else if d == 5 {
        '5'
    } else if d == 6 {
        '6'
    } else if d == 7 {
        '7'
    } else if d == 8 {
        '8'
    } else {
        '9'
    }
}

/// The decimal rendering of a non-negative number, most significant digit
/// first, without leading zeros.
pub open spec fn dec_digits(n: int) -> Seq<char>
    decreases n,
{
    if n < 10 {
        seq![digit_char(n)]
    } else {
        dec_digits(n / 10).push(digit_char(n % 10))
    }
}

/// The digit character of a value below ten carries exactly that value.
pub proof fn lemma_digit_char_val(d: int)
    requires
        0 <= d < 10,
    ensures
        digit_val(digit_char(d)) == d,
        is_digit(digit_char(d)),
{
}

/// Rendering a number and reading the digits back gives the number again.
pub proof fn lemma_dec_digits_value(n: int)
    requires
        0 <= n,
    ensures
        is_dec_digits(dec_digits(n)),
        dec_value(dec_digits(n)) == n,
    decreases n,
{
    if n < 10 {
        lemma_digit_char_val(n);
        assert(dec_digits(n) == seq![digit_char(n)]);
        assert(dec_digits(n).drop_last() =~= Seq::<char>::empty());
        assert(dec_digits(n).last() == digit_char(n));
        assert(dec_value(Seq::<char>::empty()) == 0);
        assert(dec_value(dec_digits(n)) == dec_value(Seq::<char>::empty()) * 10 + digit_val(
            digit_char(n),
        ));
    } else {
        lemma_dec_digits_value(n / 10);
        lemma_fundamental_div_mod(n, 10);
        lemma_digit_char_val(n % 10);
        assert(dec_digits(n).drop_last() =~= dec_digits(n / 10));
        assert(dec_digits(n).last() == digit_char(n % 10));
        assert(dec_value(dec_digits(n)) == dec_value(dec_digits(n / 10)) * 10 + digit_val(
            digit_char(n % 10),
        ));
        assert(forall|i: int|
            0 <= i < dec_digits(n).len() ==> is_digit(#[trigger] dec_digits(n)[i]));
    }
}

/// Appends the digit character for `d` to `s`.
fn push_digit(s: &mut String, d: u64)
    requires
        d < 10,
    ensures
        final(s)@ == old(s)@ + seq![digit_char(d as int)],
{
    if d == 0 {
        proof {
            reveal_strlit("0");
        }
        assert("0"@ =~= seq![digit_char(0int)]);
        s.append("0");
    } else if d == 1 {
        proof {
            reveal_strlit("1");
        }
        assert("1"@ =~= seq![digit_char(1int)]);
        s.append("1");
    } else if d == 2 {
        proof {
            reveal_strlit("2");
        }
        assert("2"@ =~= seq![digit_char(2int)]);
        s.append("2");
    } else if d == 3 {
        proof {
            reveal_strlit("3");
        }
        assert("3"@ =~= seq![digit_char(3int)]);
        s.append("3");
    } else if d == 4 {
        proof {
            reveal_strlit("4");
        }
        assert("4"@ =~= seq![digit_char(4int)]);
        s.append("4");
    } else if d == 5 {
        proof {
            reveal_strlit("5");
        }
        assert("5"@ =~= seq![digit_char(5int)]);
        s.append("5");
    } else if d == 6 {
        proof {
            reveal_strlit("6");
        }
        assert("6"@ =~= seq![digit_char(6int)]);
        s.append("6");
    } else if d == 7 {
        proof {
            reveal_strlit("7");
        }
        assert("7"@ =~= seq![digit_char(7int)]);
        s.append("7");
    } else if d == 8 {
        proof {
            reveal_strlit("8");
        }
        assert("8"@ =~= seq![digit_char(8int)]);
        s.append("8");
    } else {
        proof {
            reveal_strlit("9");
        }
        assert("9"@ =~= seq![digit_char(9int)]);
        s.append("9");
    }
}

/// The decimal text of `n`, exactly as the standard integer formatter writes
/// it.
pub fn format_u64(n: u64) -> (s: String)
    ensures
        s@ == dec_digits(n as int),
{
    let mut digits: Vec<u64> = Vec::new();
    let mut m: u64 = n;
    let ghost mut suffix: Seq<char> = Seq::empty();
    while m >= 10
        invariant
            dec_digits(n as int) =~= dec_digits(m as int) + suffix,
            suffix.len() == digits.len(),
            forall|j: int|
                0 <= j < digits.len() ==> #[trigger] digits@[j] < 10 && suffix[suffix.len() - 1
                    - j] == digit_char(digits@[j] as int),
        decreases m,
    {
        let d = m % 10;
        digits.push(d);
        m = m / 10;
        proof {
            lemma_fundamental_div_mod(m as int, 10);
            suffix = seq![digit_char(d as int)] + suffix;
        }
    }
    digits.push(m);
    proof {
        suffix = seq![digit_char(m as int)] + suffix;
        assert(dec_digits(m as int) == seq![digit_char(m as int)]);
        assert(dec_digits(n as int) =~= suffix);
    }
    let mut s = String::new();
    let mut i: usize = digits.len();
    while i > 0
        invariant
            i <= digits.len(),
            suffix.len() == digits.len(),
            forall|j: int|
                0 <= j < digits.len() ==> #[trigger] digits@[j] < 10 && suffix[suffix.len() - 1
                    - j] == digit_char(digits@[j] as int),
            s@ =~= suffix.take(digits.len() - i),
        decreases i,
    {
        i = i - 1;
        push_digit(&mut s, digits[i]);
        assert(s@ =~= suffix.take(digits.len() - i));
    }
    assert(s@ =~= suffix);
    s
}

/// Rendering a number into field text and reading that text back yields
/// the number again: the slider's value and its shown text always agree.
pub proof fn lemma_slider_text_round_trip(value: u64)
    ensures
        parses_as_uint(dec_digits(value as int), u64::MAX as int),
        dec_value(strip_plus(dec_digits(value as int))) == value,
{
    lemma_dec_digits_value(value as int);
    let s = dec_digits(value as int);
    assert(is_digit(s[0]));
    assert(s[0] != '+');
    assert(strip_plus(s) == s);
}

/// `s` split at every occurrence of `sep`, the separators themselves
/// dropped; splitting the empty text gives one empty piece, as the standard
/// splitter does.
pub open spec fn split_on(s: Seq<char>, sep: char) -> Seq<Seq<char>>
    decreases s.len(),
{
    if s.len() == 0 {
        seq![Seq::empty()]
    } else if s[0] == sep {
        seq![Seq::<char>::empty()] + split_on(s.drop_first(), sep)
    } else {
        let rest = split_on(s.drop_first(), sep);
        seq![seq![s[0]] + rest[0]] + rest.drop_first()
    }
}

/// Splitting always yields at least one piece.
pub proof fn lemma_split_on_len(s: Seq<char>, sep: char)
    ensures
        split_on(s, sep).len() >= 1,
    decreases s.len(),
{
    if s.len() > 0 {
        lemma_split_on_len(s.drop_first(), sep);
    }
}

/// The pieces of `v`, from position `i` on, split at every `sep`.
fn split_chars_from(v: &Vec<char>, i: usize, sep: char) -> (parts: Vec<Vec<char>>)
    requires
        i <= v.len(),
    ensures
        parts@.len() == split_on(v@.skip(i as int), sep).len(),
        forall|j: int|
            0 <= j < parts@.len() ==> #[trigger] parts@[j]@ == split_on(v@.skip(i as int), sep)[j],
    decreases v.len() - i,
{
    let ghost s = v@.skip(i as int);
    if i == v.len() {
        assert(s =~= Seq::<char>::empty());
        let mut parts: Vec<Vec<char>> = Vec::new();
        parts.push(Vec::new());
        return parts;
    }
    assert(s[0] == v@[i as int]);
    assert(s.drop_first() =~= v@.skip(i + 1));
    let mut rest = split_chars_from(v, i + 1, sep);
    proof {
        lemma_split_on_len(v@.skip(i + 1), sep);
    }
    if v[i] == sep {
        rest.insert(0, Vec::new());
        assert(forall|j: int|
            0 <= j < rest@.len() ==> #[trigger] rest@[j]@ == split_on(s, sep)[j]);
        rest
    } else {
        let mut old_first = rest.remove(0);
        let mut first: Vec<char> = Vec::new();
        first.push(v[i]);
        first.append(&mut old_first);
        rest.insert(0, first);
        assert(forall|j: int|
            0 <= j < rest@.len() ==> #[trigger] rest@[j]@ == split_on(s, sep)[j]);
        rest
    }
}

/// Whether `s` names an acceptable destination host: the name `localhost`,
/// or at least four dot-separated pieces each of which reads as a decimal
/// number up to 255.
pub open spec fn ip_text_ok(s: Seq<char>) -> bool {
    s == "localhost"@ || {
        let parts = split_on(s, '.');
        parts.len() >= 4 && forall|i: int|
            0 <= i < parts.len() ==> parses_as_uint(#[trigger] parts[i], 255)
    }
}

/// Whether `s` reads as a port number.
pub open spec fn port_text_ok(s: Seq<char>) -> bool {
    parses_as_uint(s, 65535)
}

/// The text of one form field, and whether its current content was rejected.
pub struct TextInputState {
    pub content: String,
    pub incorrect: bool,
}

impl TextInputState {
    pub fn new(content: String, incorrect: bool) -> (r: TextInputState)
        ensures
            r.content == content,
            r.incorrect == incorrect,
    {
        TextInputState { content, incorrect }
    }
}

impl Default for TextInputState {
    fn default() -> (r: TextInputState)
        ensures
            r.content@ == Seq::<char>::empty(),
            !r.incorrect,
    {
        TextInputState { content: String::new(), incorrect: false }
    }
}

/// The destination-host field.
pub struct Ip(pub TextInputState);

impl Default for Ip {
    fn default() -> (r: Ip)
        ensures
            r.0.content@ == "127.0.0.1"@,
            !r.0.incorrect,
    {
        Ip(TextInputState::new("127.0.0.1".to_owned(), false))
    }
}

impl Ip {
    /// Whether `ip` is an acceptable destination host.
    pub fn check(&self, ip: &str) -> (r: bool)
        ensures
            r == ip_text_ok(ip@),
    {
        let v = chars_of(ip);
        let localhost = chars_of("localhost");
        if eq_chars(&v, &localhost) {
            return true;
        }
        let parts = split_chars_from(&v, 0, '.');
        proof {
            assert(v@.skip(0) =~= v@);
        }
        if parts.len() < 4 {
            return false;
        }
        for i in 0..parts.len()
            invariant
                parts@.len() == split_on(v@, '.').len(),
                forall|j: int|
                    0 <= j < parts@.len() ==> #[trigger] parts@[j]@ == split_on(v@, '.')[j],
                forall|j: int|
                    0 <= j < i ==> parses_as_uint(#[trigger] split_on(v@, '.')[j], 255),
                v@ == ip@,
                v@ != "localhost"@,
                parts@.len() >= 4,
        {
            if parse_uint(&parts[i], 255).is_none() {
                assert(!parses_as_uint(split_on(ip@, '.')[i as int], 255));
                return false;
            }
        }
        true
    }

    /// Takes fresh field text: the field keeps it, and is marked incorrect
    /// exactly when it is non-empty and not an acceptable destination host.
    pub fn update(&mut self, new_content: String)
        ensures
            final(self).0.content == new_content,
            final(self).0.incorrect == (new_content@.len() > 0 && !ip_text_ok(new_content@)),
    {
        self.0.incorrect = false;
        if !new_content.as_str().is_empty() && !self.check(new_content.as_str()) {
            self.0.incorrect = true;
        }
        self.0.content = new_content;
    }
}

/// The destination-port field.
pub struct Port(pub TextInputState);

impl Default for Port {
    fn default() -> (r: Port)
        ensures
            r.0.content@ == "80"@,
            !r.0.incorrect,
    {
        Port(TextInputState::new("80".to_owned(), false))
    }
}

impl Port {
    /// Whether `port` reads as a port number.
    pub fn check(&self, port: &str) -> (r: bool)
        ensures
            r == port_text_ok(port@),
    {
        let v = chars_of(port);
        parse_uint(&v, 65535).is_some()
    }

    /// Takes fresh field text: the field keeps it, and is marked incorrect
    /// exactly when it is non-empty and does not read as a port number.
    pub fn update(&mut self, new_content: String)
        ensures
            final(self).0.content == new_content,
            final(self).0.incorrect == (new_content@.len() > 0 && !port_text_ok(new_content@)),
    {
        self.0.incorrect = false;
        if !new_content.as_str().is_empty() && !self.check(new_content.as_str()) {
            self.0.incorrect = true;
        }
        self.0.content = new_content;
    }
}

/// Which of the two mode checkboxes was toggled, and to what.
#[derive(Clone, Copy, Debug, PartialEq, Eq, Structural)]
pub enum ModeToggle {
    Constant(bool),
    Increase(bool),
}

/// The load-mode choice: fixed population or ramp-up. At most one of the two
/// is ever set.
#[derive(Clone, Copy, Debug, PartialEq, Eq, Structural)]
pub struct Mode {
    pub constant: bool,
    pub increase: bool,
}

impl Default for Mode {
    fn default() -> (r: Mode)
        ensures
            !r.constant,
            !r.increase,
    {
        Mode { constant: false, increase: false }
    }
}

impl Mode {
    /// Whether a mode has been picked at all.
    pub fn chosen(&self) -> (r: bool)
        ensures
            r == (self.constant || self.increase),
    {
        self.constant || self.increase
    }

    /// Applies one checkbox toggle; the other choice is always cleared, so
    /// the two modes stay mutually exclusive.
    pub fn update(&mut self, toggle: ModeToggle)
        ensures
            final(self).constant == (toggle == ModeToggle::Constant(true)),
            final(self).increase == (toggle == ModeToggle::Increase(true)),
    {
        self.constant = false;
        self.increase = false;
        match toggle {
            ModeToggle::Constant(val) => {
                self.constant = val;
            },
            ModeToggle::Increase(val) => {
                self.increase = val;
            },
        }
    }
}

/// The connection-count field: a slider and a text input over the same
/// value.
pub struct Connections {
    pub text_state: TextInputState,
    pub value: u64,
}

impl Default for Connections {
    fn default() -> (r: Connections)
        ensures
            r.value == 0,
            r.text_state.content@ == Seq::<char>::empty(),
            !r.text_state.incorrect,
    {
        Connections { text_state: TextInputState::new(String::new(), false), value: 0 }
    }
}

impl Connections {
    /// Takes a new value from the slider: the text input shows its decimal
    /// rendering.
    pub fn update_slider(&mut self, value: u64)
        ensures
            final(self).value == value,
            final(self).text_state.content@ == dec_digits(value as int),
            !final(self).text_state.incorrect,
    {
        self.text_state.incorrect = false;
        self.value = value;
        self.text_state.content = format_u64(value);
    }

    /// Takes fresh text from the input: the value follows the text when it
    /// reads as a number, and falls back to zero with the field marked
    /// incorrect when it does not.
    pub fn update_input(&mut self, content: String)
        ensures
            final(self).text_state.content == content,
            parses_as_uint(content@, u64::MAX as int) ==> !final(self).text_state.incorrect
                && final(self).value == dec_value(strip_plus(content@)),
            !parses_as_uint(content@, u64::MAX as int) ==> final(self).text_state.incorrect
                && final(self).value == 0,
    {
        self.text_state.incorrect = false;
        let v = chars_of(content.as_str());
        match parse_uint(&v, u64::MAX) {
            Some(value) => {
                self.value = value;
            },
            None => {
                self.text_state.incorrect = true;
                self.value = 0;
            },
        }
        self.text_state.content = content;
    }
}

/// Which of the control buttons are offered, and whether the fill-all-inputs
/// warning shows.
#[derive(Clone, Copy, Debug, PartialEq, Eq, Structural)]
pub struct ButtonsLayout {
    pub run: bool,
    pub pause: bool,
    pub resume: bool,
    pub stop: bool,
    pub warn: bool,
}

/// The run/pause/resume/stop button row.
#[derive(Clone, Copy, Debug, PartialEq, Eq, Structural)]
pub struct Buttons {}

impl Default for Buttons {
    fn default() -> (r: Buttons)
        ensures
            r == (Buttons {  }),
    {
        Buttons {  }
    }
}

impl Buttons {
    /// Which buttons are offered in the given run phase: Run while idle;
    /// Stop while running; Pause or Resume while running, by whether the run
    /// is paused.
    pub fn layout(&self, cant_run: bool, test_running: bool, paused: bool) -> (r: ButtonsLayout)
        ensures
            r.run == !test_running,
            r.stop == test_running,
            r.pause == (test_running && !paused),
            r.resume == (test_running && paused),
            r.warn == cant_run,
    {
        ButtonsLayout {
            run: !test_running,
            pause: test_running && !paused,
            resume: test_running && paused,
            stop: test_running,
            warn: cant_run,
        }
    }
}

/// The plugin picker: every discovered plugin name, and the chosen one.
pub struct PluginsSelect {
    pub all: Vec<String>,
    pub selected: String,
}

impl Default for PluginsSelect {
    fn default() -> (r: PluginsSelect)
        ensures
            r.all@ == Seq::<String>::empty(),
            r.selected@ == Seq::<char>::empty(),
    {
        PluginsSelect { all: Vec::new(), selected: String::new() }
    }
}

impl PluginsSelect {
    /// Picks a plugin; the list of choices is untouched.
    pub fn update(&mut self, selected: String)
        ensures
            final(self).selected == selected,
            final(self).all == old(self).all,
    {
        self.selected = selected;
    }
}

/// Whether a run may start from the given form: every field correct and
/// filled in, a mode chosen, and a non-zero connection count.
pub open spec fn spec_run_allowed(
    ip: TextInputState,
    port: TextInputState,
    connections: TextInputState,
    mode: Mode,
    value: u64,
) -> bool {
    &&& !ip.incorrect
    &&& !port.incorrect
    &&& !connections.incorrect
    &&& ip.content@.len() > 0
    &&& port.content@.len() > 0
    &&& connections.content@.len() > 0
    &&& (mode.constant || mode.increase)
    &&& value != 0
}

/// Whether a run may start: no field rejected, no field empty,
/// a mode chosen, and a non-zero connection count.
pub fn run_allowed(
    ip: &TextInputState,
    port: &TextInputState,
    connections: &TextInputState,
    mode: &Mode,
    value: u64,
) -> (r: bool)
    ensures
        r == spec_run_allowed(*ip, *port, *connections, *mode, value),
{
    !ip.incorrect && !port.incorrect && !connections.incorrect && !ip.content.as_str().is_empty()
        && !port.content.as_str().is_empty() && !connections.content.as_str().is_empty() && (
    mode.constant || mode.increase) && value != 0
}

} // verus!
