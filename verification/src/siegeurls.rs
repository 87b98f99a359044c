//! The url file language of Siege: variable assignments, variable references
//! with escapes, comments, and url entries with a method, a content type and
//! a body.
use vstd::prelude::*;
use vstd::hash_map::StringHashMap;
use vstd::string::StringSliceAdditionalSpecFns;
use vstd::utf8::encode_utf8;
use crate::duration::{nat_min, Duration, MAX_NANOS};
use crate::text::{
    all_white_space, chars_of, find_char, find_white_space, is_all_white_space, is_char,
    is_white_space, position, push_chars, push_str, split_once_by, string_of, trim, trim_bounds,
    trim_end, trim_end_bound, trim_start, white_space,
};

verus! {

broadcast use vstd::string::group_string_axioms;

/// What `char::is_alphanumeric` returns for `c` (the Unicode `Alphabetic`
/// property or a numeric general category).
pub uninterp spec fn char_is_alphanumeric(c: char) -> bool;

/// Whether `c` is one of the ASCII letters and digits.
pub open spec fn is_ascii_alnum(c: char) -> bool {
    ('0' <= c && c <= '9') || ('a' <= c && c <= 'z') || ('A' <= c && c <= 'Z')
}

/// `char::is_alphanumeric`. Its result is named by `char_is_alphanumeric`;
/// of ASCII characters the contract says that exactly the letters and
/// digits are alphanumeric, as the Unicode properties that std follows give
/// it. Nothing is said of other characters.
#[verifier::external_body]
fn is_alphanumeric(c: char) -> (b: bool)
    ensures
        b == char_is_alphanumeric(c),
        (c as u32) < 128 ==> (b <==> is_ascii_alnum(c)),
{
    c.is_alphanumeric()
}

/// Whether `c` is alphanumeric: of ASCII characters the letters and
/// digits, of the others what `char::is_alphanumeric` returns.
pub open spec fn alphanumeric(c: char) -> bool {
    if (c as u32) < 128 {
        is_ascii_alnum(c)
    } else {
        char_is_alphanumeric(c)
    }
}

/// Whether `c` may stand in a variable's name: alphanumeric or `_`.
pub open spec fn is_name_char(c: char) -> bool {
    alphanumeric(c) || c == '_'
}

/// The name and the value of an assignment line `NAME=value`: the line is
/// trimmed and cut at its first `=`; the name may hold only alphanumeric
/// characters and `_`; a `#` in the value starts a comment, which is dropped
/// together with the white space before it.
pub open spec fn assignment(line: Seq<char>) -> Option<(Seq<char>, Seq<char>)> {
    match split_once_by(trim(line), is_char('=')) {
        None => None,
        Some((name, value)) => {
            if exists|i: int| 0 <= i < name.len() && !is_name_char(#[trigger] name[i]) {
                None
            } else {
                match split_once_by(value, is_char('#')) {
                    Some((v, _comment)) => Some((name, trim_end(v))),
                    None => Some((name, value)),
                }
            }
        }
    }
}

/// Whether a byte may stand in an HTTP method: a `tchar` of RFC 9110.
pub open spec fn is_token_byte(b: u8) -> bool {
    ||| (0x30 <= b && b <= 0x39)
    ||| (0x41 <= b && b <= 0x5a)
    ||| (0x61 <= b && b <= 0x7a)
    ||| b == 0x21 || b == 0x23 || b == 0x24 || b == 0x25 || b == 0x26 || b == 0x27
    ||| b == 0x2a || b == 0x2b || b == 0x2d || b == 0x2e
    ||| b == 0x5e || b == 0x5f || b == 0x60 || b == 0x7c || b == 0x7e
}

/// Whether a character may stand in an HTTP method.
pub open spec fn is_token_char(c: char) -> bool {
    ||| is_ascii_alnum(c)
    ||| c == '!' || c == '#' || c == '$' || c == '%' || c == '&' || c == '\''
    ||| c == '*' || c == '+' || c == '-' || c == '.'
    ||| c == '^' || c == '_' || c == '`' || c == '|' || c == '~'
}

/// Whether `m` names an HTTP method: one token character or more, case
/// kept as it is.
pub open spec fn valid_method(m: Seq<char>) -> bool {
    m.len() > 0 && forall|i: int| 0 <= i < m.len() ==> is_token_char(#[trigger] m[i])
}

/// `reqwest::Method::from_bytes` (the `http` crate's), with the method taken
/// back out by `Method::as_str`. The contract states what its source shows:
/// the bytes are accepted exactly where there is one at least and each is
/// a token byte, and the method's text is those bytes.
#[verifier::external_body]
fn method_from_bytes(bytes: &[u8]) -> (r: Option<String>)
    ensures
        r is Some <==> (bytes@.len() > 0 && forall|i: int|
            0 <= i < bytes@.len() ==> is_token_byte(#[trigger] bytes@[i])),
        r matches Some(s) ==> s@ == bytes@.map_values(|b: u8| b as char),
{
    match reqwest::Method::from_bytes(bytes) {
        Ok(m) => Some(m.as_str().to_string()),
        Err(_) => None,
    }
}

/// The method of an HTTP request.
#[derive(Clone, Debug)]
pub struct Method {
    name: String,
}

impl View for Method {
    type V = Seq<char>;

    closed spec fn view(&self) -> Seq<char> {
        self.name@
    }
}

pub open spec fn get_method() -> Seq<char> {
    seq!['G', 'E', 'T']
}

impl Method {
    /// The `GET` method.
    pub fn get() -> (m: Method)
        ensures
            m@ == get_method(),
    {
        let s = "GET";
        proof {
            reveal_strlit("GET");
        }
        Method { name: s.to_owned() }
    }

    /// The method that `token` names, or `None` where it names none.
    pub fn from_token(token: &str) -> (r: Option<Method>)
        ensures
            r is Some <==> valid_method(token@),
            r matches Some(m) ==> m@ == token@,
    {
        if !token.is_ascii() {
            // A byte of a character beyond ASCII is never a token byte.
            proof {
                let k = choose|k: int| 0 <= k < token@.len() && !('\0' <= #[trigger] token@[k] <= '\u{7f}');
                assert(!is_token_char(token@[k]));
            }
            return None;
        }
        let bytes = token.as_bytes();
        proof {
            assert(bytes@ =~= Seq::new(token@.len(), |i| token@.index(i) as u8));
            assert forall|i: int| 0 <= i < token@.len() implies (is_token_byte(
                #[trigger] bytes@[i],
            ) <==> is_token_char(token@[i])) by {
                assert(bytes@[i] == token@[i] as u8);
            }
        }
        match method_from_bytes(bytes) {
            Some(name) => {
                assert(name@ =~= token@) by {
                    assert forall|i: int| 0 <= i < token@.len() implies name@[i] == token@[i] by {
                        assert(bytes@[i] == token@[i] as u8);
                    }
                }
                Some(Method { name })
            },
            None => None,
        }
    }

    /// The method's name.
    pub fn as_str(&self) -> (s: &str)
        ensures
            s@ == self@,
    {
        self.name.as_str()
    }
}

/// The body of a url entry as the contracts see it.
pub enum BodyView {
    NoBody,
    Content(Seq<u8>),
    File(Seq<char>),
}

/// The body to send with a request.
#[derive(Debug, Clone)]
pub enum BodyData {
    /// No body with the request.
    NoBody,
    /// The body, loaded into memory.
    Content(Vec<u8>),
    /// The file containing the body content.
    File(String),
}

impl View for BodyData {
    type V = BodyView;

    open spec fn view(&self) -> BodyView {
        match self {
            BodyData::NoBody => BodyView::NoBody,
            BodyData::Content(v) => BodyView::Content(v@),
            BodyData::File(p) => BodyView::File(p@),
        }
    }
}

/// A url entry as the contracts see it.
pub struct EntryView {
    pub delay: nat,
    pub urlpart: Seq<char>,
    pub method: Seq<char>,
    pub content_type: Option<Seq<char>>,
    pub body: BodyView,
}

/// The method and URL to make a call with.
#[derive(Debug, Clone)]
pub struct UrlEntry {
    pub delay: Duration,
    /// A URL part can either be a complete URL or just the end portion of a URL.
    pub urlpart: String,
    pub method: Method,
    pub content_type: Option<String>,
    pub body: BodyData,
}

pub open spec fn opt_view(o: Option<String>) -> Option<Seq<char>> {
    match o {
        Some(s) => Some(s@),
        None => None,
    }
}

impl View for UrlEntry {
    type V = EntryView;

    open spec fn view(&self) -> EntryView {
        EntryView {
            delay: self.delay@,
            urlpart: self.urlpart@,
            method: self.method@,
            content_type: opt_view(self.content_type),
            body: self.body@,
        }
    }
}

/// Where a content type given without quotes ends: at a `;` or at white
/// space.
pub open spec fn type_end() -> spec_fn(char) -> bool {
    |c: char| c == ';' || is_white_space(c)
}

/// The body that follows a content type: nothing where only white space
/// follows, else the rest trimmed, after the `;` that may close the content
/// type.
pub open spec fn body_after_type(rest: Seq<char>) -> Option<Seq<char>> {
    let r = trim_start(rest);
    if r.len() == 0 {
        None
    } else if r[0] == ';' {
        Some(trim(r.skip(1)))
    } else {
        Some(trim(r))
    }
}

/// The content type and the body of what follows the method. A content type
/// is given by `-T` and the argument after it: in double quotes, or else up
/// to the first `;` or white space, a `;` after it being optional. The body
/// is the rest, trimmed. Without `-T` all of it is the body. An opening
/// quote that is not closed makes the rest, trimmed, the content type.
pub open spec fn type_and_body(next: Seq<char>) -> (Option<Seq<char>>, Option<Seq<char>>) {
    if next.len() >= 2 && next[0] == '-' && next[1] == 'T' {
        let r = trim_start(next.skip(2));
        if r.len() > 0 && r[0] == '"' {
            match split_once_by(r.skip(1), is_char('"')) {
                Some((t, rest)) => (Some(t), body_after_type(rest)),
                None => (Some(trim(r.skip(1))), None),
            }
        } else {
            let k = position(r, type_end());
            (Some(r.take(k as int)), body_after_type(r.skip(k as int)))
        }
    } else {
        (None, Some(trim(next)))
    }
}

/// The body that the body text asks for: a body that starts with `<` names
/// the file that holds it (trimmed), any other is sent as its UTF-8 bytes.
pub open spec fn body_of(body: Option<Seq<char>>) -> BodyView {
    match body {
        None => BodyView::NoBody,
        Some(b) => {
            if b.len() > 0 && b[0] == '<' {
                BodyView::File(trim(b.skip(1)))
            } else {
                BodyView::Content(encode_utf8(b))
            }
        },
    }
}

/// Where the scan of a line stands.
#[derive(Clone, Copy, Debug, PartialEq, Eq, Structural)]
pub enum Mode {
    /// Not in an escape, not in a reference, just regular text
    Normal,
    /// Previous char was the escape '\' char
    Escape,
    /// Previous char was the reference '$' char
    RefStart,
    /// Getting the variable name of the reference, not wrapped by brace or parens
    RefNoWrap,
    /// Getting the variable name of the reference, wrapped with braces '{' '}'
    RefWithBrace,
    /// Getting the variable name of the reference, wrapped with parens '(' ')'
    RefWithParen,
}

/// The state of the scan of a line after some of its characters: the mode,
/// the index of the character where the name of the current reference
/// starts, the text produced so far, and whether a comment ended the scan.
pub struct Scan {
    pub mode: Mode,
    pub var_start: int,
    pub out: Seq<char>,
    pub stopped: bool,
}

/// The value that a reference to `name` stands for: the variable of the url
/// file, else the environment variable, else nothing.
pub open spec fn lookup(
    vars: Map<Seq<char>, Seq<char>>,
    env: Map<Seq<char>, Seq<char>>,
    name: Seq<char>,
) -> Seq<char> {
    if vars.contains_key(name) {
        vars[name]
    } else if env.contains_key(name) {
        env[name]
    } else {
        Seq::empty()
    }
}

pub open spec fn with_mode(st: Scan, mode: Mode, out: Seq<char>) -> Scan {
    Scan { mode, var_start: st.var_start, out, stopped: st.stopped }
}

pub open spec fn with_start(st: Scan, mode: Mode, var_start: int) -> Scan {
    Scan { mode, var_start, out: st.out, stopped: st.stopped }
}

pub open spec fn stopped(st: Scan) -> Scan {
    Scan { mode: st.mode, var_start: st.var_start, out: st.out, stopped: true }
}

/// A reference that closes at character index `i`: the name between
/// `var_start` and `i` is looked up, or, where that range is empty, the
/// characters `empty` are kept.
pub open spec fn close_ref(
    vars: Map<Seq<char>, Seq<char>>,
    env: Map<Seq<char>, Seq<char>>,
    tail: Seq<char>,
    st: Scan,
    i: int,
    empty: Seq<char>,
) -> Scan {
    if st.var_start != i {
        with_mode(st, Mode::Normal, st.out + lookup(vars, env, tail.subrange(st.var_start, i)))
    } else {
        with_mode(st, Mode::Normal, st.out + empty)
    }
}

/// One character `tail[i]` of the scan.
pub open spec fn step(
    vars: Map<Seq<char>, Seq<char>>,
    env: Map<Seq<char>, Seq<char>>,
    tail: Seq<char>,
    st: Scan,
    i: int,
) -> Scan {
    let c = tail[i];
    if st.stopped {
        st
    } else {
        match st.mode {
            Mode::Normal => {
                if c == '\\' {
                    with_mode(st, Mode::Escape, st.out)
                } else if c == '$' {
                    with_mode(st, Mode::RefStart, st.out)
                } else if c == '#' {
                    stopped(st)
                } else {
                    with_mode(st, Mode::Normal, st.out.push(c))
                }
            },
            Mode::Escape => {
                let out = if c != '$' && c != '\\' { st.out.push('\\') } else { st.out };
                with_mode(st, Mode::Normal, out.push(c))
            },
            Mode::RefStart => {
                if is_ascii_alnum(c) {
                    with_start(st, Mode::RefNoWrap, i)
                } else if c == '{' {
                    with_start(st, Mode::RefWithBrace, i + 1)
                } else if c == '(' {
                    with_start(st, Mode::RefWithParen, i + 1)
                } else if c == '\\' {
                    with_mode(st, Mode::Escape, st.out.push('$'))
                } else if c == '$' {
                    with_mode(st, Mode::RefStart, st.out.push('$'))
                } else {
                    with_mode(st, Mode::Normal, st.out.push('$').push(c))
                }
            },
            Mode::RefNoWrap => {
                if !is_name_char(c) {
                    with_mode(
                        st,
                        Mode::Normal,
                        (st.out + lookup(vars, env, tail.subrange(st.var_start, i))).push(c),
                    )
                } else {
                    st
                }
            },
            Mode::RefWithBrace => {
                if c == '}' {
                    close_ref(vars, env, tail, st, i, seq!['$', '{', '}'])
                } else {
                    st
                }
            },
            Mode::RefWithParen => {
                if c == ')' {
                    close_ref(vars, env, tail, st, i, seq!['$', '(', ')'])
                } else {
                    st
                }
            },
        }
    }
}

/// The scan after the first `n` characters of `tail`.
pub open spec fn scan(
    vars: Map<Seq<char>, Seq<char>>,
    env: Map<Seq<char>, Seq<char>>,
    tail: Seq<char>,
    n: nat,
) -> Scan
    decreases n,
{
    if n == 0 {
        Scan { mode: Mode::Normal, var_start: 0, out: Seq::empty(), stopped: false }
    } else {
        step(vars, env, tail, scan(vars, env, tail, (n - 1) as nat), n - 1)
    }
}

/// What is left to do when the characters run out: an escape or a `$` at
/// the end is kept as it is, a reference without a wrapper is looked up, and
/// an unclosed wrapped reference is kept as it is, from its `$` on.
pub open spec fn finish(
    vars: Map<Seq<char>, Seq<char>>,
    env: Map<Seq<char>, Seq<char>>,
    tail: Seq<char>,
    st: Scan,
) -> Seq<char> {
    match st.mode {
        Mode::Normal => st.out,
        Mode::Escape => st.out.push('\\'),
        Mode::RefStart => st.out.push('$'),
        Mode::RefNoWrap => st.out + lookup(
            vars,
            env,
            tail.subrange(st.var_start, tail.len() as int),
        ),
        Mode::RefWithBrace | Mode::RefWithParen => st.out + tail.subrange(
            st.var_start - 2,
            tail.len() as int,
        ),
    }
}

pub open spec fn is_special() -> spec_fn(char) -> bool {
    |c: char| c == '\\' || c == '$'
}

/// The line with its escapes resolved and its variable references replaced.
/// A line without `\` and `$` is kept as it is; otherwise it is scanned from
/// its first `\` or `$` on, and a `#` outside escapes and references ends
/// it as a comment.
pub open spec fn substitute(
    vars: Map<Seq<char>, Seq<char>>,
    env: Map<Seq<char>, Seq<char>>,
    line: Seq<char>,
) -> Seq<char> {
    let i = position(line, is_special());
    if i == line.len() {
        line
    } else {
        let tail = line.skip(i as int);
        line.take(i as int) + finish(vars, env, tail, scan(vars, env, tail, tail.len()))
    }
}

/// Once a comment ends the scan, the rest of the characters change nothing.
pub proof fn lemma_scan_ended(
    vars: Map<Seq<char>, Seq<char>>,
    env: Map<Seq<char>, Seq<char>>,
    tail: Seq<char>,
    k: nat,
    n: nat,
)
    requires
        k <= n,
        scan(vars, env, tail, k).stopped,
    ensures
        scan(vars, env, tail, n) == scan(vars, env, tail, k),
    decreases n - k,
{
    if k < n {
        lemma_scan_ended(vars, env, tail, k, (n - 1) as nat);
    }
}

/// Characters that go through the scan as they are: no escape, no
/// reference and no comment.
pub open spec fn plain(s: Seq<char>) -> bool {
    forall|i: int| 0 <= i < s.len() ==> #[trigger] s[i] != '\\' && s[i] != '$' && s[i] != '#'
}

/// Characters before the first escape or reference.
pub open spec fn no_special(s: Seq<char>) -> bool {
    forall|i: int| 0 <= i < s.len() ==> #[trigger] s[i] != '\\' && s[i] != '$'
}

/// In the normal mode, plain characters are copied to the output.
proof fn lemma_scan_plain(
    vars: Map<Seq<char>, Seq<char>>,
    env: Map<Seq<char>, Seq<char>>,
    tail: Seq<char>,
    m: nat,
    k: nat,
)
    requires
        m + k <= tail.len(),
        scan(vars, env, tail, m).mode == Mode::Normal,
        !scan(vars, env, tail, m).stopped,
        plain(tail.subrange(m as int, (m + k) as int)),
    ensures
        scan(vars, env, tail, m + k) == with_mode(
            scan(vars, env, tail, m),
            Mode::Normal,
            scan(vars, env, tail, m).out + tail.subrange(m as int, (m + k) as int),
        ),
    decreases k,
{
    let st = scan(vars, env, tail, m);
    if k == 0 {
        assert(st.out + tail.subrange(m as int, m as int) =~= st.out);
    } else {
        let k1 = (k - 1) as nat;
        assert(plain(tail.subrange(m as int, (m + k1) as int))) by {
            assert forall|i: int| 0 <= i < k1 implies #[trigger] tail.subrange(
                m as int,
                (m + k1) as int,
            )[i] == tail.subrange(m as int, (m + k) as int)[i] by {}
        }
        lemma_scan_plain(vars, env, tail, m, k1);
        let c = tail[(m + k1) as int];
        assert(c == tail.subrange(m as int, (m + k) as int)[k1 as int]);
        assert(scan(vars, env, tail, m + k) == step(
            vars,
            env,
            tail,
            scan(vars, env, tail, m + k1),
            (m + k1) as int,
        ));
        assert((st.out + tail.subrange(m as int, (m + k1) as int)).push(c) =~= st.out
            + tail.subrange(m as int, (m + k) as int));
    }
}

/// The scan mode inside a wrapped reference: braces or parentheses.
pub open spec fn wrapped_mode(braces: bool) -> Mode {
    if braces { Mode::RefWithBrace } else { Mode::RefWithParen }
}

pub open spec fn opening(braces: bool) -> char {
    if braces { '{' } else { '(' }
}

pub open spec fn closing(braces: bool) -> char {
    if braces { '}' } else { ')' }
}

/// Inside a wrapped reference, the characters of the name change nothing.
proof fn lemma_scan_wrapped(
    vars: Map<Seq<char>, Seq<char>>,
    env: Map<Seq<char>, Seq<char>>,
    tail: Seq<char>,
    braces: bool,
    j: nat,
)
    requires
        2 <= j <= tail.len(),
        tail[0] == '$',
        tail[1] == opening(braces),
        forall|i: int| 2 <= i < j ==> #[trigger] tail[i] != closing(braces),
    ensures
        scan(vars, env, tail, j) == (Scan {
            mode: wrapped_mode(braces),
            var_start: 2,
            out: Seq::empty(),
            stopped: false,
        }),
    decreases j,
{
    if j == 2 {
        assert(scan(vars, env, tail, 1) == step(vars, env, tail, scan(vars, env, tail, 0), 0));
        assert(scan(vars, env, tail, 2) == step(vars, env, tail, scan(vars, env, tail, 1), 1));
    } else {
        lemma_scan_wrapped(vars, env, tail, braces, (j - 1) as nat);
        assert(scan(vars, env, tail, j) == step(
            vars,
            env,
            tail,
            scan(vars, env, tail, (j - 1) as nat),
            j - 1,
        ));
    }
}

/// Where the first special character of a line stands after `p`, the line
/// is scanned from there.
proof fn lemma_special_after(p: Seq<char>, tail: Seq<char>)
    requires
        no_special(p),
        tail.len() > 0,
        tail[0] == '\\' || tail[0] == '$',
    ensures
        position(p + tail, is_special()) == p.len(),
        (p + tail).skip(p.len() as int) == tail,
        (p + tail).take(p.len() as int) == p,
{
    let line = p + tail;
    crate::text::lemma_position(line, is_special(), p.len() as int);
    assert(line.skip(p.len() as int) =~= tail);
    assert(line.take(p.len() as int) =~= p);
}

/// A line without escapes and references is kept as it is.
pub proof fn lemma_plain_line_unchanged(
    vars: Map<Seq<char>, Seq<char>>,
    env: Map<Seq<char>, Seq<char>>,
    line: Seq<char>,
)
    requires
        no_special(line),
    ensures
        substitute(vars, env, line) == line,
{
    crate::text::lemma_position(line, is_special(), line.len() as int);
}

/// What a wrapped reference stands for: the value of its variable, or,
/// where the name is empty, the reference itself.
pub open spec fn wrapped_value(
    vars: Map<Seq<char>, Seq<char>>,
    env: Map<Seq<char>, Seq<char>>,
    name: Seq<char>,
    braces: bool,
) -> Seq<char> {
    if name.len() > 0 {
        lookup(vars, env, name)
    } else {
        seq!['$', opening(braces), closing(braces)]
    }
}

/// The scan of a wrapped reference followed by plain text.
proof fn lemma_wrapped_tail(
    vars: Map<Seq<char>, Seq<char>>,
    env: Map<Seq<char>, Seq<char>>,
    name: Seq<char>,
    q: Seq<char>,
    braces: bool,
)
    requires
        forall|i: int| 0 <= i < name.len() ==> #[trigger] name[i] != closing(braces),
        plain(q),
    ensures
        ({
            let tail = seq!['$', opening(braces)] + name + seq![closing(braces)] + q;
            let st = scan(vars, env, tail, tail.len());
            &&& st.mode == Mode::Normal
            &&& !st.stopped
            &&& st.out == wrapped_value(vars, env, name, braces) + q
            &&& finish(vars, env, tail, st) == wrapped_value(vars, env, name, braces) + q
        }),
{
    let n: int = name.len() as int;
    let ql: int = q.len() as int;
    let tail = seq!['$', opening(braces)] + name + seq![closing(braces)] + q;
    assert forall|i: int| 2 <= i < 2 + n implies #[trigger] tail[i] != closing(braces) by {
        assert(tail[i] == name[i - 2]);
    }
    lemma_scan_wrapped(vars, env, tail, braces, (2 + n) as nat);
    assert(tail.subrange(2, 2 + n) =~= name);
    let st = scan(vars, env, tail, (2 + n) as nat);
    assert(tail[2 + n] == closing(braces));
    assert(scan(vars, env, tail, (3 + n) as nat) == step(vars, env, tail, st, 2 + n));
    let value = wrapped_value(vars, env, name, braces);
    assert(Seq::<char>::empty() + value =~= value);
    assert(n == 0 ==> seq!['$', '{', '}'] =~= value || seq!['$', '(', ')'] =~= value);
    assert(tail.subrange(3 + n, 3 + n + ql) =~= q);
    lemma_scan_plain(vars, env, tail, (3 + n) as nat, q.len());
    assert(3 + n + ql == tail.len());
}

/// A reference wrapped in braces (`${NAME}`) or in parentheses (`$(NAME)`)
/// is replaced by the value of its variable, the text around it kept; an
/// empty one (`${}`, `$()`) is kept as it is. The name holds no closing
/// character; before the reference the line has no escape or reference,
/// and after it no escape, reference or comment.
pub proof fn lemma_wrapped_reference(
    vars: Map<Seq<char>, Seq<char>>,
    env: Map<Seq<char>, Seq<char>>,
    p: Seq<char>,
    name: Seq<char>,
    q: Seq<char>,
    braces: bool,
)
    requires
        no_special(p),
        forall|i: int| 0 <= i < name.len() ==> #[trigger] name[i] != closing(braces),
        plain(q),
    ensures
        substitute(vars, env, p + seq!['$', opening(braces)] + name + seq![closing(braces)] + q)
            == p + wrapped_value(vars, env, name, braces) + q,
{
    let tail = seq!['$', opening(braces)] + name + seq![closing(braces)] + q;
    let line = p + seq!['$', opening(braces)] + name + seq![closing(braces)] + q;
    assert(line =~= p + tail);
    lemma_special_after(p, tail);
    lemma_wrapped_tail(vars, env, name, q, braces);
    assert(p + (wrapped_value(vars, env, name, braces) + q) =~= p + wrapped_value(
        vars,
        env,
        name,
        braces,
    ) + q);
}

/// Whether the scan is inside a variable reference.
pub open spec fn in_reference(m: Mode) -> bool {
    m == Mode::RefNoWrap || m == Mode::RefWithBrace || m == Mode::RefWithParen
}

/// Where the name of a reference starts is never past the characters seen,
/// and a wrapped name starts after its `$` and its opening character.
proof fn lemma_scan_bounds(
    vars: Map<Seq<char>, Seq<char>>,
    env: Map<Seq<char>, Seq<char>>,
    t: Seq<char>,
    k: nat,
)
    requires
        k <= t.len(),
    ensures
        0 <= scan(vars, env, t, k).var_start <= k,
        scan(vars, env, t, k).mode == Mode::RefStart ==> k >= 1,
        (scan(vars, env, t, k).mode == Mode::RefWithBrace || scan(vars, env, t, k).mode
            == Mode::RefWithParen) ==> scan(vars, env, t, k).var_start >= 2,
    decreases k,
{
    if k > 0 {
        lemma_scan_bounds(vars, env, t, (k - 1) as nat);
        assert(scan(vars, env, t, k) == step(
            vars,
            env,
            t,
            scan(vars, env, t, (k - 1) as nat),
            k - 1,
        ));
    }
}

/// The scan of a line's first characters does not look past them.
proof fn lemma_scan_prefix(
    vars: Map<Seq<char>, Seq<char>>,
    env: Map<Seq<char>, Seq<char>>,
    x: Seq<char>,
    y: Seq<char>,
    k: nat,
)
    requires
        k <= x.len(),
    ensures
        scan(vars, env, x + y, k) == scan(vars, env, x, k),
    decreases k,
{
    if k > 0 {
        let i = k - 1;
        lemma_scan_prefix(vars, env, x, y, (k - 1) as nat);
        lemma_scan_bounds(vars, env, x, (k - 1) as nat);
        let st = scan(vars, env, x, (k - 1) as nat);
        assert((x + y)[i] == x[i]);
        assert((x + y).subrange(st.var_start, i) =~= x.subrange(st.var_start, i));
        assert(scan(vars, env, x + y, k) == step(vars, env, x + y, st, i));
        assert(scan(vars, env, x, k) == step(vars, env, x, st, i));
    }
}

/// A scan state of `x + y` that stands for the scan state `b` of `y` alone:
/// the same mode, the output of `x` before `b`'s, and a reference's name
/// start moved by the length of `x`.
pub open spec fn shifted(a: Scan, b: Scan, off: int, pre: Seq<char>) -> bool {
    &&& a.mode == b.mode
    &&& a.stopped == b.stopped
    &&& a.out == pre + b.out
    &&& in_reference(b.mode) ==> a.var_start == b.var_start + off
}

/// One step keeps a state of `x + y` standing for the state of `y`.
proof fn lemma_step_shifted(
    vars: Map<Seq<char>, Seq<char>>,
    env: Map<Seq<char>, Seq<char>>,
    x: Seq<char>,
    y: Seq<char>,
    a: Scan,
    b: Scan,
    j: int,
)
    requires
        0 <= j < y.len(),
        0 <= b.var_start <= j,
        shifted(a, b, x.len() as int, scan(vars, env, x, x.len()).out),
    ensures
        shifted(
            step(vars, env, x + y, a, x.len() + j),
            step(vars, env, y, b, j),
            x.len() as int,
            scan(vars, env, x, x.len()).out,
        ),
{
    let off = x.len() as int;
    let pre = scan(vars, env, x, x.len()).out;
    let c = y[j];
    assert((x + y)[off + j] == c);
    assert((x + y).subrange(b.var_start + off, off + j) =~= y.subrange(b.var_start, j));
    let l = lookup(vars, env, y.subrange(b.var_start, j));
    assert((pre + b.out).push(c) =~= pre + b.out.push(c));
    assert((pre + b.out).push('$') =~= pre + b.out.push('$'));
    assert((pre + b.out).push('$').push(c) =~= pre + b.out.push('$').push(c));
    assert((pre + b.out).push('\\').push(c) =~= pre + b.out.push('\\').push(c));
    assert((pre + b.out) + l =~= pre + (b.out + l));
    assert(((pre + b.out) + l).push(c) =~= pre + (b.out + l).push(c));
    assert((pre + b.out) + seq!['$', '{', '}'] =~= pre + (b.out + seq!['$', '{', '}']));
    assert((pre + b.out) + seq!['$', '(', ')'] =~= pre + (b.out + seq!['$', '(', ')']));
}

/// After a first part whose scan ends in the normal mode, the rest of a
/// line is scanned as if it stood alone, its output after the first part's.
proof fn lemma_scan_shifted(
    vars: Map<Seq<char>, Seq<char>>,
    env: Map<Seq<char>, Seq<char>>,
    x: Seq<char>,
    y: Seq<char>,
    j: nat,
)
    requires
        j <= y.len(),
        scan(vars, env, x, x.len()).mode == Mode::Normal,
        !scan(vars, env, x, x.len()).stopped,
    ensures
        shifted(
            scan(vars, env, x + y, x.len() + j),
            scan(vars, env, y, j),
            x.len() as int,
            scan(vars, env, x, x.len()).out,
        ),
    decreases j,
{
    let pre = scan(vars, env, x, x.len()).out;
    if j == 0 {
        lemma_scan_prefix(vars, env, x, y, x.len());
        assert(pre + Seq::<char>::empty() =~= pre);
    } else {
        lemma_scan_shifted(vars, env, x, y, (j - 1) as nat);
        lemma_scan_bounds(vars, env, y, (j - 1) as nat);
        lemma_step_shifted(
            vars,
            env,
            x,
            y,
            scan(vars, env, x + y, (x.len() + j - 1) as nat),
            scan(vars, env, y, (j - 1) as nat),
            j - 1,
        );
        assert(scan(vars, env, x + y, x.len() + j) == step(
            vars,
            env,
            x + y,
            scan(vars, env, x + y, (x.len() + j - 1) as nat),
            x.len() + j - 1,
        ));
        assert(scan(vars, env, y, j) == step(
            vars,
            env,
            y,
            scan(vars, env, y, (j - 1) as nat),
            j - 1,
        ));
    }
}

/// The text that a line gives after a first part whose scan ends in the
/// normal mode is the first part's output followed by what the rest gives
/// on its own.
proof fn lemma_finish_shifted(
    vars: Map<Seq<char>, Seq<char>>,
    env: Map<Seq<char>, Seq<char>>,
    x: Seq<char>,
    y: Seq<char>,
)
    requires
        scan(vars, env, x, x.len()).mode == Mode::Normal,
        !scan(vars, env, x, x.len()).stopped,
    ensures
        finish(vars, env, x + y, scan(vars, env, x + y, (x + y).len())) == scan(
            vars,
            env,
            x,
            x.len(),
        ).out + finish(vars, env, y, scan(vars, env, y, y.len())),
{
    let off = x.len() as int;
    let pre = scan(vars, env, x, x.len()).out;
    lemma_scan_shifted(vars, env, x, y, y.len());
    lemma_scan_bounds(vars, env, y, y.len());
    assert(x.len() + y.len() == (x + y).len());
    let a = scan(vars, env, x + y, (x + y).len());
    let b = scan(vars, env, y, y.len());
    let yl = y.len() as int;
    assert((x + y).subrange(b.var_start + off, off + yl) =~= y.subrange(b.var_start, yl));
    assert(b.var_start >= 2 ==> (x + y).subrange(b.var_start - 2 + off, off + yl)
        =~= y.subrange(b.var_start - 2, yl));
    let l = lookup(vars, env, y.subrange(b.var_start, yl));
    assert((pre + b.out).push('\\') =~= pre + b.out.push('\\'));
    assert((pre + b.out).push('$') =~= pre + b.out.push('$'));
    assert((pre + b.out) + l =~= pre + (b.out + l));
    assert((pre + b.out) + y.subrange(b.var_start - 2, yl) =~= pre + (b.out + y.subrange(
        b.var_start - 2,
        yl,
    )));
}

/// Every reference of a line is replaced, not only the first: two wrapped
/// references in a line each stand for their variable's value, and the text
/// around them is kept. Before the first reference the line has no escape
/// or reference; between and after them it has no escape, reference or
/// comment; the names hold no closing character.
pub proof fn lemma_two_references(
    vars: Map<Seq<char>, Seq<char>>,
    env: Map<Seq<char>, Seq<char>>,
    p: Seq<char>,
    a: Seq<char>,
    braces_a: bool,
    q: Seq<char>,
    b: Seq<char>,
    braces_b: bool,
    r: Seq<char>,
)
    requires
        no_special(p),
        forall|i: int| 0 <= i < a.len() ==> #[trigger] a[i] != closing(braces_a),
        plain(q),
        forall|i: int| 0 <= i < b.len() ==> #[trigger] b[i] != closing(braces_b),
        plain(r),
    ensures
        substitute(
            vars,
            env,
            p + seq!['$', opening(braces_a)] + a + seq![closing(braces_a)] + q + seq![
                '$',
                opening(braces_b),
            ] + b + seq![closing(braces_b)] + r,
        ) == p + wrapped_value(vars, env, a, braces_a) + q + wrapped_value(vars, env, b, braces_b)
            + r,
{
    let x = seq!['$', opening(braces_a)] + a + seq![closing(braces_a)] + q;
    let y = seq!['$', opening(braces_b)] + b + seq![closing(braces_b)] + r;
    let line = p + seq!['$', opening(braces_a)] + a + seq![closing(braces_a)] + q + seq![
        '$',
        opening(braces_b),
    ] + b + seq![closing(braces_b)] + r;
    assert(line =~= p + (x + y));
    assert((x + y)[0] == '$');
    lemma_special_after(p, x + y);
    lemma_wrapped_tail(vars, env, a, q, braces_a);
    lemma_wrapped_tail(vars, env, b, r, braces_b);
    lemma_finish_shifted(vars, env, x, y);
    let va = wrapped_value(vars, env, a, braces_a);
    let vb = wrapped_value(vars, env, b, braces_b);
    assert(p + ((va + q) + (vb + r)) =~= p + va + q + vb + r);
}

/// A wrapped reference that is not closed is kept as it is, to the end of
/// the line. Before the reference the line has no escape or reference.
pub proof fn lemma_unclosed_reference(
    vars: Map<Seq<char>, Seq<char>>,
    env: Map<Seq<char>, Seq<char>>,
    p: Seq<char>,
    t: Seq<char>,
    braces: bool,
)
    requires
        no_special(p),
        forall|i: int| 0 <= i < t.len() ==> #[trigger] t[i] != closing(braces),
    ensures
        substitute(vars, env, p + seq!['$', opening(braces)] + t) == p + seq![
            '$',
            opening(braces),
        ] + t,
{
    let tail = seq!['$', opening(braces)] + t;
    let line = p + tail;
    lemma_special_after(p, tail);
    assert forall|i: int| 2 <= i < tail.len() implies #[trigger] tail[i] != closing(braces) by {
        assert(tail[i] == t[i - 2]);
    }
    lemma_scan_wrapped(vars, env, tail, braces, tail.len());
    assert(tail.subrange(0, tail.len() as int) =~= tail);
    assert(Seq::<char>::empty() + tail =~= tail);
    assert(p + tail =~= p + seq!['$', opening(braces)] + t);
}

/// Inside a reference without a wrapper, the characters of the name change
/// nothing.
proof fn lemma_scan_unwrapped(
    vars: Map<Seq<char>, Seq<char>>,
    env: Map<Seq<char>, Seq<char>>,
    tail: Seq<char>,
    j: nat,
)
    requires
        2 <= j <= tail.len(),
        tail[0] == '$',
        is_ascii_alnum(tail[1]),
        forall|i: int| 2 <= i < j ==> is_name_char(#[trigger] tail[i]),
    ensures
        scan(vars, env, tail, j) == (Scan {
            mode: Mode::RefNoWrap,
            var_start: 1,
            out: Seq::empty(),
            stopped: false,
        }),
    decreases j,
{
    if j == 2 {
        assert(scan(vars, env, tail, 1) == step(vars, env, tail, scan(vars, env, tail, 0), 0));
        assert(scan(vars, env, tail, 2) == step(vars, env, tail, scan(vars, env, tail, 1), 1));
    } else {
        lemma_scan_unwrapped(vars, env, tail, (j - 1) as nat);
        assert(scan(vars, env, tail, j) == step(
            vars,
            env,
            tail,
            scan(vars, env, tail, (j - 1) as nat),
            j - 1,
        ));
    }
}

/// The scan of a reference without a wrapper followed by plain text.
proof fn lemma_unwrapped_tail(
    vars: Map<Seq<char>, Seq<char>>,
    env: Map<Seq<char>, Seq<char>>,
    name: Seq<char>,
    q: Seq<char>,
)
    requires
        name.len() > 0,
        is_ascii_alnum(name[0]),
        forall|i: int| 0 <= i < name.len() ==> is_name_char(#[trigger] name[i]),
        plain(q),
        q.len() > 0 ==> !is_name_char(q[0]),
    ensures
        ({
            let tail = seq!['$'] + name + q;
            finish(vars, env, tail, scan(vars, env, tail, tail.len())) == lookup(vars, env, name)
                + q
        }),
{
    let n: int = name.len() as int;
    let ql: int = q.len() as int;
    let tail = seq!['$'] + name + q;
    assert forall|i: int| 2 <= i < 1 + n implies is_name_char(#[trigger] tail[i]) by {
        assert(tail[i] == name[i - 1]);
    }
    assert(tail[1] == name[0]);
    lemma_scan_unwrapped(vars, env, tail, (1 + n) as nat);
    assert(tail.subrange(1, 1 + n) =~= name);
    let value = lookup(vars, env, name);
    if ql == 0 {
        assert(tail.subrange(1, tail.len() as int) =~= name);
        assert(Seq::<char>::empty() + value =~= value + q);
    } else {
        let st = scan(vars, env, tail, (1 + n) as nat);
        assert(tail[1 + n] == q[0]);
        assert(scan(vars, env, tail, (2 + n) as nat) == step(vars, env, tail, st, 1 + n));
        assert((Seq::<char>::empty() + value).push(q[0]) =~= value.push(q[0]));
        assert(tail.subrange(2 + n, 1 + n + ql) =~= q.skip(1));
        assert(plain(q.skip(1))) by {
            assert forall|i: int| 0 <= i < ql - 1 implies #[trigger] q.skip(1)[i] == q[i + 1] by {}
        }
        lemma_scan_plain(vars, env, tail, (2 + n) as nat, (ql - 1) as nat);
        assert(value.push(q[0]) + q.skip(1) =~= value + q);
    }
}

/// A reference without a wrapper (`$NAME`) is replaced by the value of its
/// variable, the text around it kept. The name starts with an ASCII letter
/// or digit and holds only name characters, and the text after it starts
/// with a character that cannot stand in a name; before the reference the
/// line has no escape or reference, and after it no escape, reference or
/// comment.
pub proof fn lemma_unwrapped_reference(
    vars: Map<Seq<char>, Seq<char>>,
    env: Map<Seq<char>, Seq<char>>,
    p: Seq<char>,
    name: Seq<char>,
    q: Seq<char>,
)
    requires
        no_special(p),
        name.len() > 0,
        is_ascii_alnum(name[0]),
        forall|i: int| 0 <= i < name.len() ==> is_name_char(#[trigger] name[i]),
        plain(q),
        q.len() > 0 ==> !is_name_char(q[0]),
    ensures
        substitute(vars, env, p + seq!['$'] + name + q) == p + lookup(vars, env, name) + q,
{
    let tail = seq!['$'] + name + q;
    let line = p + seq!['$'] + name + q;
    assert(line =~= p + tail);
    lemma_special_after(p, tail);
    lemma_unwrapped_tail(vars, env, name, q);
    assert(p + (lookup(vars, env, name) + q) =~= p + lookup(vars, env, name) + q);
}

/// An escaped `\\` or `$` stands for itself; before any other character
/// the backslash is kept. Before the escape the line has no escape or
/// reference, after it no escape, reference or comment.
pub proof fn lemma_escape(
    vars: Map<Seq<char>, Seq<char>>,
    env: Map<Seq<char>, Seq<char>>,
    p: Seq<char>,
    c: char,
    q: Seq<char>,
)
    requires
        no_special(p),
        plain(q),
    ensures
        substitute(vars, env, p + seq!['\\', c] + q) == p + (if c == '\\' || c == '$' {
            seq![c]
        } else {
            seq!['\\', c]
        }) + q,
{
    let tail = seq!['\\', c] + q;
    let line = p + seq!['\\', c] + q;
    assert(line == p + tail);
    lemma_special_after(p, tail);
    let kept = if c == '\\' || c == '$' { seq![c] } else { seq!['\\', c] };
    assert(scan(vars, env, tail, 1) == step(vars, env, tail, scan(vars, env, tail, 0), 0));
    assert(scan(vars, env, tail, 2) == step(vars, env, tail, scan(vars, env, tail, 1), 1));
    assert(scan(vars, env, tail, 2).out =~= kept);
    assert(tail.subrange(2, 2 + q.len() as int) =~= q);
    lemma_scan_plain(vars, env, tail, 2, q.len());
    assert(line.take(p.len() as int) + (kept + q) =~= p + kept + q);
}

/// What a line of a url file amounts to.
pub enum LineParse {
    /// An empty line, a line of white space or a comment.
    Skip,
    /// An assignment; the variables after it.
    Assign(Map<Seq<char>, Seq<char>>),
    /// A url entry.
    Entry(EntryView),
}

/// The url entry that a line with its variables replaced makes: the url is
/// the text up to the first white space; then comes the method, up to the
/// next white space; the rest holds the content type and the body. Without
/// a method the entry is a `GET`. Where the token after the url names no
/// method, it is part of the url: the whole line is the url of a `GET`.
pub open spec fn entry_of(delay: nat, l: Seq<char>) -> EntryView {
    let get_all = EntryView {
        delay,
        urlpart: l,
        method: get_method(),
        content_type: None,
        body: BodyView::NoBody,
    };
    match split_once_by(l, white_space()) {
        None => get_all,
        Some((url, rest)) => match split_once_by(rest, white_space()) {
            None => {
                if valid_method(rest) {
                    EntryView {
                        delay,
                        urlpart: url,
                        method: rest,
                        content_type: None,
                        body: BodyView::NoBody,
                    }
                } else {
                    get_all
                }
            },
            Some((method, next)) => {
                if valid_method(method) {
                    EntryView {
                        delay,
                        urlpart: url,
                        method,
                        content_type: type_and_body(next).0,
                        body: body_of(type_and_body(next).1),
                    }
                } else {
                    get_all
                }
            },
        },
    }
}

/// A line made of a url, a method and what follows the method.
proof fn lemma_entry_parts(d: nat, url: Seq<char>, m: Seq<char>, next: Seq<char>)
    requires
        forall|i: int| 0 <= i < url.len() ==> !is_white_space(#[trigger] url[i]),
        valid_method(m),
    ensures
        entry_of(d, url + seq![' '] + m + seq![' '] + next) == (EntryView {
            delay: d,
            urlpart: url,
            method: m,
            content_type: type_and_body(next).0,
            body: body_of(type_and_body(next).1),
        }),
{
    let l = url + seq![' '] + m + seq![' '] + next;
    let ul = url.len() as int;
    assert forall|j: int| 0 <= j < ul implies !white_space()(#[trigger] l[j]) by {
        assert(l[j] == url[j]);
    }
    assert(l[ul] == ' ');
    crate::text::lemma_position(l, white_space(), ul);
    assert(l.take(ul) =~= url);
    let rest = m + seq![' '] + next;
    assert(l.skip(ul + 1) =~= rest);
    assert forall|j: int| 0 <= j < m.len() implies !white_space()(#[trigger] rest[j]) by {
        assert(rest[j] == m[j]);
        assert(is_token_char(m[j]));
    }
    assert(rest[m.len() as int] == ' ');
    crate::text::lemma_position(rest, white_space(), m.len() as int);
    assert(rest.take(m.len() as int) =~= m);
    assert(rest.skip(m.len() as int + 1) =~= next);
}

/// The body of a url entry does not depend on whether a content type is
/// given: with `-T type;` before the body text, the entry has that content
/// type and the same body as without it. The url holds no white space, the
/// content type is not quoted and holds no `;` or white space, and the body
/// text does not itself start with `-T`.
pub proof fn lemma_body_ignores_content_type(
    d: nat,
    url: Seq<char>,
    m: Seq<char>,
    t: Seq<char>,
    b: Seq<char>,
)
    requires
        forall|i: int| 0 <= i < url.len() ==> !is_white_space(#[trigger] url[i]),
        valid_method(m),
        t.len() > 0,
        t[0] != '"',
        forall|i: int| 0 <= i < t.len() ==> #[trigger] t[i] != ';' && !is_white_space(t[i]),
        !(b.len() >= 2 && b[0] == '-' && b[1] == 'T'),
    ensures
        ({
            let typed = entry_of(
                d,
                url + seq![' '] + m + seq![' '] + (seq!['-', 'T', ' '] + t + seq![';'] + b),
            );
            let plain_entry = entry_of(d, url + seq![' '] + m + seq![' '] + b);
            &&& typed.content_type == Some(t)
            &&& plain_entry.content_type is None
            &&& typed.body == plain_entry.body
            &&& typed.urlpart == url && plain_entry.urlpart == url
            &&& typed.method == m && plain_entry.method == m
        }),
{
    let next = seq!['-', 'T', ' '] + t + seq![';'] + b;
    lemma_entry_parts(d, url, m, next);
    lemma_entry_parts(d, url, m, b);
    lemma_typed_next(t, b);
}

/// What follows the method when a content type is given before the body.
proof fn lemma_typed_next(t: Seq<char>, b: Seq<char>)
    requires
        t.len() > 0,
        t[0] != '"',
        forall|i: int| 0 <= i < t.len() ==> #[trigger] t[i] != ';' && !is_white_space(t[i]),
    ensures
        type_and_body(seq!['-', 'T', ' '] + t + seq![';'] + b) == (Some(t), Some(trim(b))),
{
    let next = seq!['-', 'T', ' '] + t + seq![';'] + b;
    let s2 = next.skip(2);
    let r = t + seq![';'] + b;
    assert(s2 =~= seq![' '] + r);
    assert(s2[0] == ' ');
    assert(s2[1] == t[0]);
    crate::text::lemma_position(s2, crate::text::not_white_space(), 1);
    assert(s2.skip(1) =~= r);
    assert(trim_start(s2) == r);
    assert(r[0] == t[0]);
    assert forall|j: int| 0 <= j < t.len() implies !type_end()(#[trigger] r[j]) by {
        assert(r[j] == t[j]);
    }
    assert(r[t.len() as int] == ';');
    crate::text::lemma_position(r, type_end(), t.len() as int);
    assert(r.take(t.len() as int) =~= t);
    let semi = seq![';'] + b;
    assert(r.skip(t.len() as int) =~= semi);
    assert(semi[0] == ';');
    crate::text::lemma_position(semi, crate::text::not_white_space(), 0);
    assert(semi.skip(0) =~= semi);
    assert(semi.skip(1) =~= b);
    assert(body_after_type(semi) == Some(trim(b)));
}

/// A body text that starts with `<` names the file that holds the body,
/// with or without a content type before it. The url holds no white space
/// and the path neither starts nor ends with white space.
pub proof fn lemma_redirected_body(d: nat, url: Seq<char>, m: Seq<char>, path: Seq<char>)
    requires
        forall|i: int| 0 <= i < url.len() ==> !is_white_space(#[trigger] url[i]),
        valid_method(m),
        path.len() > 0,
        !is_white_space(path[0]),
        !is_white_space(path.last()),
    ensures
        entry_of(d, url + seq![' '] + m + seq![' '] + (seq!['<'] + path)).body == BodyView::File(
            path,
        ),
{
    let b = seq!['<'] + path;
    lemma_entry_parts(d, url, m, b);
    let e = Seq::<char>::empty();
    assert(b[0] == '<');
    assert(b.last() == path.last());
    assert(crate::text::all_white_space(e));
    assert(e + b =~= b);
    assert(e + path =~= path);
    crate::text::lemma_trim_padded(e, b);
    crate::text::lemma_trim_padded(e, path);
    assert(b.skip(1) =~= path);
}

/// What `line` amounts to, given the variables assigned so far, the
/// environment and the default delay. A variable keeps the first value that
/// the file assigns it.
pub open spec fn parse_line_spec(
    vars: Map<Seq<char>, Seq<char>>,
    env: Map<Seq<char>, Seq<char>>,
    delay: nat,
    line: Seq<char>,
) -> LineParse {
    if all_white_space(line) {
        LineParse::Skip
    } else if trim_start(line).len() > 0 && trim_start(line)[0] == '#' {
        LineParse::Skip
    } else {
        match assignment(line) {
            Some((name, value)) => {
                if vars.contains_key(name) {
                    LineParse::Assign(vars)
                } else {
                    LineParse::Assign(vars.insert(name, substitute(vars, env, value)))
                }
            },
            None => LineParse::Entry(entry_of(delay, substitute(vars, env, line))),
        }
    }
}

/// A variable keeps the first value that the url file assigns it: a line
/// never changes or removes a variable that is set, and the one variable
/// that a line may add is the one that it assigns.
pub proof fn lemma_first_value_kept(
    vars: Map<Seq<char>, Seq<char>>,
    env: Map<Seq<char>, Seq<char>>,
    delay: nat,
    line: Seq<char>,
)
    ensures
        parse_line_spec(vars, env, delay, line) matches LineParse::Assign(m) ==> {
            &&& forall|k: Seq<char>| #[trigger] vars.contains_key(k) ==> m.contains_key(k)
                && m[k] == vars[k]
            &&& forall|k: Seq<char>| #[trigger] m.contains_key(k) && !vars.contains_key(k) ==> (
            assignment(line) matches Some((name, _)) && k == name)
        },
{
}

/// A reference reads what an assignment wrote: after an assignment line,
/// the variable it names is set (to the value with its references replaced,
/// where the file had not set it before, else to the value it had), and a
/// reference `${NAME}` to it stands for that value. The name holds no `}`,
/// as a braced reference needs.
pub proof fn lemma_reference_reads_assignment(
    vars: Map<Seq<char>, Seq<char>>,
    env: Map<Seq<char>, Seq<char>>,
    delay: nat,
    line: Seq<char>,
    name: Seq<char>,
    value: Seq<char>,
)
    requires
        parse_line_spec(vars, env, delay, line) is Assign,
        assignment(line) == Some((name, value)),
        name.len() > 0,
        forall|i: int| 0 <= i < name.len() ==> #[trigger] name[i] != '}',
    ensures
        parse_line_spec(vars, env, delay, line) matches LineParse::Assign(m) && {
            &&& m.contains_key(name)
            &&& !vars.contains_key(name) ==> m[name] == substitute(vars, env, value)
            &&& vars.contains_key(name) ==> m[name] == vars[name]
            &&& substitute(m, env, seq!['$', '{'] + name + seq!['}']) == m[name]
        },
{
    let m = parse_line_spec(vars, env, delay, line)->Assign_0;
    let e = Seq::<char>::empty();
    lemma_wrapped_reference(m, env, e, name, e, true);
    assert(e + seq!['$', opening(true)] + name + seq![closing(true)] + e =~= seq!['$', '{'] + name
        + seq!['}']);
    assert(e + lookup(m, env, name) + e =~= lookup(m, env, name));
}

/// What the variables of a url file hold, what the environment held when the
/// file was opened, and the delay that each entry gets.
pub struct SiegeView {
    pub variables: Map<Seq<char>, Seq<char>>,
    pub environment: Map<Seq<char>, Seq<char>>,
    pub default_delay: nat,
}

/// Reads the lines of a url file one by one, keeping the variables that the
/// file has assigned so far.
pub struct SiegeUrls {
    variables: StringHashMap<String>,
    environment: StringHashMap<String>,
    default_delay: Duration,
}

/// The map that a list of name and value pairs makes, a later pair winning.
pub open spec fn pairs_map(pairs: Seq<(String, String)>) -> Map<Seq<char>, Seq<char>>
    decreases pairs.len(),
{
    if pairs.len() == 0 {
        Map::empty()
    } else {
        pairs_map(pairs.drop_last()).insert(pairs.last().0@, pairs.last().1@)
    }
}

pub open spec fn string_values(m: Map<Seq<char>, String>) -> Map<Seq<char>, Seq<char>> {
    m.map_values(|v: String| v@)
}

impl View for SiegeUrls {
    type V = SiegeView;

    closed spec fn view(&self) -> SiegeView {
        SiegeView {
            variables: string_values(self.variables@),
            environment: string_values(self.environment@),
            default_delay: self.default_delay@,
        }
    }
}

impl SiegeUrls {
    /// A reader with no variables assigned yet, which looks references up in
    /// `environment` (its name and value pairs, a later pair winning) where
    /// the url file does not assign them.
    pub fn new(default_delay: Duration, environment: Vec<(String, String)>) -> (r: SiegeUrls)
        ensures
            r@.variables == Map::<Seq<char>, Seq<char>>::empty(),
            r@.environment == pairs_map(environment@),
            r@.default_delay == default_delay@,
    {
        let mut env: StringHashMap<String> = StringHashMap::new();
        let mut i: usize = 0;
        while i < environment.len()
            invariant
                i <= environment.len(),
                string_values(env@) == pairs_map(environment@.take(i as int)),
            decreases environment.len() - i,
        {
            let k = environment[i].0.clone();
            let v = environment[i].1.clone();
            let ghost before = env@;
            env.insert(k, v);
            assert(environment@.take(i + 1).drop_last() == environment@.take(i as int));
            assert(string_values(env@) =~= string_values(before).insert(
                environment@[i as int].0@,
                environment@[i as int].1@,
            ));
            i = i + 1;
        }
        assert(environment@.take(environment@.len() as int) == environment@);
        SiegeUrls { variables: StringHashMap::new(), environment: env, default_delay }
    }

    /// The delay that the entries of this reader get.
    pub fn default_delay(&self) -> (d: Duration)
        ensures
            d@ == self@.default_delay,
    {
        self.default_delay
    }

    /// Splits an assignment line into its name and value, or returns `None`
    /// where the line is not an assignment.
    pub fn parse_assignment(line: &str) -> (r: Option<(String, String)>)
        ensures
            match r {
                Some((name, value)) => assignment(line@) == Some((name@, value@)),
                None => assignment(line@) is None,
            },
    {
        let cs = chars_of(line);
        let (a, b) = trim_bounds(&cs, 0, cs.len());
        let ghost t = cs@.subrange(a as int, b as int);
        assert(cs@.subrange(0, cs@.len() as int) == cs@);
        let e = find_char(&cs, a, b, '=');
        assert(trim(line@) == t);
        if e == b {
            assert(split_once_by(t, is_char('=')) is None);
            assert(assignment(line@) is None);
            return None;
        }
        assert(t.take(e - a) == cs@.subrange(a as int, e as int));
        assert(t.skip(e - a + 1) == cs@.subrange(e + 1, b as int));
        assert(split_once_by(trim(line@), is_char('=')) == Some(
            (cs@.subrange(a as int, e as int), cs@.subrange(e + 1, b as int)),
        ));
        let mut i: usize = a;
        while i < e
            invariant
                a <= i <= e < b <= cs.len(),
                split_once_by(trim(line@), is_char('=')) == Some(
                    (cs@.subrange(a as int, e as int), cs@.subrange(e + 1, b as int)),
                ),
                forall|j: int| a <= j < i ==> is_name_char(#[trigger] cs@[j]),
            decreases e - i,
        {
            if !is_alphanumeric(cs[i]) && cs[i] != '_' {
                assert(cs@.subrange(a as int, e as int)[i - a] == cs@[i as int]);
                assert(!is_name_char(cs@.subrange(a as int, e as int)[i - a]));
                return None;
            }
            i = i + 1;
        }
        assert forall|j: int| 0 <= j < e - a implies is_name_char(
            #[trigger] cs@.subrange(a as int, e as int)[j],
        ) by {
            assert(cs@.subrange(a as int, e as int)[j] == cs@[a + j]);
        }
        let name = string_of(&cs, a, e);
        let h = find_char(&cs, e + 1, b, '#');
        if h < b {
            let ghost v = cs@.subrange(e + 1, b as int);
            assert(v.take(h - e - 1) == cs@.subrange(e + 1, h as int));
            let end = trim_end_bound(&cs, e + 1, h);
            Some((name, string_of(&cs, e + 1, end)))
        } else {
            Some((name, string_of(&cs, e + 1, b)))
        }
    }

    /// The index of the first `;` or white space in `v[lo..hi]`, or `hi`.
    fn find_type_end(v: &Vec<char>, lo: usize, hi: usize) -> (i: usize)
        requires
            lo <= hi <= v.len(),
        ensures
            lo + position(v@.subrange(lo as int, hi as int), type_end()) == i,
            lo <= i <= hi,
    {
        let mut i: usize = lo;
        while i < hi && v[i] != ';' && !crate::text::is_whitespace(v[i])
            invariant
                lo <= i <= hi <= v.len(),
                forall|j: int| lo <= j < i ==> !type_end()(#[trigger] v@[j]),
            decreases hi - i,
        {
            i = i + 1;
        }
        proof {
            let s = v@.subrange(lo as int, hi as int);
            assert forall|j: int| 0 <= j < i - lo implies !type_end()(#[trigger] s[j]) by {
                assert(s[j] == v@[lo + j]);
            }
            if i < hi {
                assert(s[i - lo] == v@[i as int]);
            }
            crate::text::lemma_position(s, type_end(), i - lo);
        }
        i
    }

    /// The body that follows a content type in `v[lo..hi]`.
    fn body_after(v: &Vec<char>, lo: usize, hi: usize) -> (r: Option<String>)
        requires
            lo <= hi <= v.len(),
        ensures
            opt_view(r) == body_after_type(v@.subrange(lo as int, hi as int)),
    {
        let (b, _) = trim_bounds(v, lo, hi);
        let ghost r = v@.subrange(b as int, hi as int);
        if b == hi {
            None
        } else if v[b] == ';' {
            assert(r.skip(1) == v@.subrange(b + 1, hi as int));
            let (x, y) = trim_bounds(v, b + 1, hi);
            Some(string_of(v, x, y))
        } else {
            let (x, y) = trim_bounds(v, b, hi);
            Some(string_of(v, x, y))
        }
    }

    /// Given what follows the method, determines if there is a Content-Type
    /// part and a body part. (If it starts with "-T" then there is a
    /// Content-Type part, otherwise all of it is the body.)
    pub fn get_type_and_body(next: &str) -> (r: (Option<String>, Option<String>))
        ensures
            (opt_view(r.0), opt_view(r.1)) == type_and_body(next@),
    {
        let cs = chars_of(next);
        let n = cs.len();
        if n >= 2 && cs[0] == '-' && cs[1] == 'T' {
            assert(next@.skip(2) == cs@.subrange(2, n as int));
            let (a, _) = trim_bounds(&cs, 2, n);
            let ghost r = cs@.subrange(a as int, n as int);
            if a < n && cs[a] == '"' {
                assert(r.skip(1) == cs@.subrange(a + 1, n as int));
                let q = find_char(&cs, a + 1, n, '"');
                if q < n {
                    assert(r.skip(1).take(q - a - 1) == cs@.subrange(a + 1, q as int));
                    assert(r.skip(1).skip(q - a - 1 + 1) == cs@.subrange(q + 1, n as int));
                    (Some(string_of(&cs, a + 1, q)), Self::body_after(&cs, q + 1, n))
                } else {
                    let (x, y) = trim_bounds(&cs, a + 1, n);
                    (Some(string_of(&cs, x, y)), None)
                }
            } else {
                let k = Self::find_type_end(&cs, a, n);
                assert(r.take(k - a) == cs@.subrange(a as int, k as int));
                assert(r.skip(k - a) == cs@.subrange(k as int, n as int));
                (Some(string_of(&cs, a, k)), Self::body_after(&cs, k, n))
            }
        } else {
            let (a, b) = trim_bounds(&cs, 0, n);
            assert(cs@.subrange(0, n as int) == cs@);
            (None, Some(string_of(&cs, a, b)))
        }
    }

    /// The body that the body text asks for: `<path` names the file that
    /// holds it, any other text is the body itself.
    pub fn body_from_text(body: Option<&str>) -> (r: BodyData)
        ensures
            r@ == body_of(
                match body {
                    Some(b) => Some(b@),
                    None => None,
                },
            ),
    {
        match body {
            Some(b) => {
                let cs = chars_of(b);
                if cs.len() > 0 && cs[0] == '<' {
                    let (x, y) = trim_bounds(&cs, 1, cs.len());
                    assert(cs@.skip(1) == cs@.subrange(1, cs@.len() as int));
                    BodyData::File(string_of(&cs, x, y))
                } else {
                    BodyData::Content(vstd::slice::slice_to_vec(b.as_bytes()))
                }
            },
            None => BodyData::NoBody,
        }
    }

    /// The url entry that a line, its variables already replaced, makes.
    fn entry_from(l: &str, delay: Duration) -> (r: UrlEntry)
        ensures
            r@ == entry_of(delay@, l@),
    {
        let cs = chars_of(l);
        let n = cs.len();
        assert(cs@.subrange(0, n as int) == cs@);
        let get_all = UrlEntry {
            delay,
            urlpart: l.to_owned(),
            method: Method::get(),
            content_type: None,
            body: BodyData::NoBody,
        };
        let w = find_white_space(&cs, 0, n);
        if w == n {
            return get_all;
        }
        assert(cs@.take(w as int) == cs@.subrange(0, w as int));
        let ghost rest = cs@.skip(w + 1);
        assert(rest == cs@.subrange(w + 1, n as int));
        let w2 = find_white_space(&cs, w + 1, n);
        if w2 == n {
            let token = string_of(&cs, w + 1, n);
            return match Method::from_token(token.as_str()) {
                Some(method) => UrlEntry {
                    delay,
                    urlpart: string_of(&cs, 0, w),
                    method,
                    content_type: None,
                    body: BodyData::NoBody,
                },
                None => get_all,
            };
        }
        let token = string_of(&cs, w + 1, w2);
        assert(rest.take(w2 - w - 1) == cs@.subrange(w + 1, w2 as int));
        assert(rest.skip(w2 - w - 1 + 1) == cs@.subrange(w2 + 1, n as int));
        let method = match Method::from_token(token.as_str()) {
            Some(m) => m,
            None => {
                return get_all;
            },
        };
        let next = string_of(&cs, w2 + 1, n);
        let (content_type, body) = Self::get_type_and_body(next.as_str());
        let body = match body {
            Some(b) => Self::body_from_text(Some(b.as_str())),
            None => Self::body_from_text(None),
        };
        UrlEntry { delay, urlpart: string_of(&cs, 0, w), method, content_type, body }
    }

    /// Reads one line of a url file: returns a Some(UrlEntry) if the line
    /// had data in it, or None if it was an empty line, a comment or an
    /// assignment. An assignment sets its variable unless the file has set
    /// it before.
    pub fn parse_line(&mut self, line: &str, default_delay: Duration) -> (r: Option<UrlEntry>)
        ensures
            final(self)@.environment == old(self)@.environment,
            final(self)@.default_delay == old(self)@.default_delay,
            match parse_line_spec(
                old(self)@.variables,
                old(self)@.environment,
                default_delay@,
                line@,
            ) {
                LineParse::Skip => r is None && final(self)@.variables == old(self)@.variables,
                LineParse::Assign(m) => r is None && final(self)@.variables == m,
                LineParse::Entry(e) => r matches Some(u) && u@ == e && final(self)@.variables
                    == old(self)@.variables,
            },
    {
        let cs = chars_of(line);
        if is_all_white_space(&cs) {
            return None;
        }
        let (a, _b) = trim_bounds(&cs, 0, cs.len());
        assert(cs@.subrange(0, cs@.len() as int) == cs@);
        if a < cs.len() && cs[a] == '#' {
            assert(trim_start(line@)[0] == cs@[a as int]);
            return None;
        }
        match Self::parse_assignment(line) {
            Some((name, value)) => {
                if !self.variables.contains_key(name.as_str()) {
                    let v = self.replace_vars(value.as_str());
                    let ghost before = self.variables@;
                    let ghost vv = v@;
                    self.variables.insert(name, v);
                    assert(string_values(self.variables@) =~= string_values(before).insert(
                        name@,
                        vv,
                    ));
                }
                return None;
            },
            None => {},
        }
        let l = self.replace_vars(line);
        Some(Self::entry_from(l.as_str(), default_delay))
    }

    /// Appends to `out` the value that a reference to `name` stands for.
    fn insert_val(&self, name: &str, updated: &mut String)
        ensures
            final(updated)@ == old(updated)@ + lookup(self@.variables, self@.environment, name@),
    {
        match self.variables.get(name) {
            Some(s) => push_str(updated, s.as_str()),
            None => match self.environment.get(name) {
                Some(s) => push_str(updated, s.as_str()),
                None => {
                    assert(old(updated)@ + Seq::<char>::empty() == old(updated)@);
                },
            },
        }
    }

    /// Given a line of text, resolves its escapes and replaces its variable
    /// references (`$NAME`, `${NAME}`, `$(NAME)`), and returns the new text.
    pub fn replace_vars(&self, line: &str) -> (r: String)
        ensures
            r@ == substitute(self@.variables, self@.environment, line@),
    {
        let ghost vars = self@.variables;
        let ghost env = self@.environment;
        let cs = chars_of(line);
        let mut k: usize = 0;
        while k < cs.len() && cs[k] != '\\' && cs[k] != '$'
            invariant
                k <= cs.len(),
                forall|j: int| 0 <= j < k ==> !is_special()(#[trigger] cs@[j]),
            decreases cs.len() - k,
        {
            k = k + 1;
        }
        proof {
            crate::text::lemma_position(line@, is_special(), k as int);
        }
        if k == cs.len() {
            return line.to_owned();
        }
        let mut updated = String::new();
        push_chars(&mut updated, &cs, 0, k);
        let tail_string = string_of(&cs, k, cs.len());
        let ts = chars_of(tail_string.as_str());
        let ghost pre = updated@;
        assert(pre == line@.take(k as int));
        let ghost t = ts@;
        assert(t == line@.skip(k as int));
        let mut mode = Mode::Normal;
        let mut var_start: usize = 0;
        let mut done = false;
        let mut i: usize = 0;
        while i < ts.len() && !done
            invariant
                i <= ts.len(),
                t == ts@,
                pre == line@.take(k as int),
                vars == self@.variables,
                env == self@.environment,
                ({
                    let st = scan(vars, env, t, i as nat);
                    &&& st.mode == mode
                    &&& st.var_start == var_start
                    &&& updated@ == pre + st.out
                    &&& st.stopped == done
                }),
                (mode == Mode::RefNoWrap || mode == Mode::RefWithBrace || mode
                    == Mode::RefWithParen) ==> var_start <= i,
                (mode == Mode::RefWithBrace || mode == Mode::RefWithParen) ==> var_start >= 2,
            decreases ts.len() - i,
        {
            let c = ts[i];
            let ghost st = scan(vars, env, t, i as nat);
            assert(scan(vars, env, t, (i + 1) as nat) == step(vars, env, t, st, i as int));
            match mode {
                Mode::Normal => {
                    if c == '\\' {
                        mode = Mode::Escape;
                    } else if c == '$' {
                        mode = Mode::RefStart;
                    } else if c == '#' {
                        done = true;
                    } else {
                        crate::text::push_char(&mut updated, c);
                    }
                },
                Mode::Escape => {
                    if c != '$' && c != '\\' {
                        crate::text::push_char(&mut updated, '\\');
                    }
                    crate::text::push_char(&mut updated, c);
                    mode = Mode::Normal;
                },
                Mode::RefStart => {
                    if ('0' <= c && c <= '9') || ('a' <= c && c <= 'z') || ('A' <= c && c <= 'Z') {
                        var_start = i;
                        mode = Mode::RefNoWrap;
                    } else if c == '{' {
                        var_start = i + 1;
                        mode = Mode::RefWithBrace;
                    } else if c == '(' {
                        var_start = i + 1;
                        mode = Mode::RefWithParen;
                    } else {
                        crate::text::push_char(&mut updated, '$');
                        if c == '\\' {
                            mode = Mode::Escape;
                        } else if c == '$' {
                            mode = Mode::RefStart;
                        } else {
                            crate::text::push_char(&mut updated, c);
                            mode = Mode::Normal;
                        }
                    }
                },
                Mode::RefNoWrap => {
                    if !is_alphanumeric(c) && c != '_' {
                        let var_name = string_of(&ts, var_start, i);
                        self.insert_val(var_name.as_str(), &mut updated);
                        crate::text::push_char(&mut updated, c);
                        mode = Mode::Normal;
                    }
                },
                Mode::RefWithBrace => {
                    if c == '}' {
                        if var_start != i {
                            let var_name = string_of(&ts, var_start, i);
                            self.insert_val(var_name.as_str(), &mut updated);
                        } else {
                            proof {
                                reveal_strlit("${}");
                            }
                            push_str(&mut updated, "${}");
                        }
                        mode = Mode::Normal;
                    }
                },
                Mode::RefWithParen => {
                    if c == ')' {
                        if var_start != i {
                            let var_name = string_of(&ts, var_start, i);
                            self.insert_val(var_name.as_str(), &mut updated);
                        } else {
                            proof {
                                reveal_strlit("$()");
                            }
                            push_str(&mut updated, "$()");
                        }
                        mode = Mode::Normal;
                    }
                },
            }
            i = i + 1;
        }
        proof {
            if done {
                lemma_scan_ended(vars, env, t, i as nat, t.len());
            }
        }
        match mode {
            Mode::Normal => {},
            Mode::Escape => {
                crate::text::push_char(&mut updated, '\\');
            },
            Mode::RefStart => {
                crate::text::push_char(&mut updated, '$');
            },
            Mode::RefNoWrap => {
                let var_name = string_of(&ts, var_start, ts.len());
                self.insert_val(var_name.as_str(), &mut updated);
            },
            Mode::RefWithBrace | Mode::RefWithParen => {
                push_chars(&mut updated, &ts, var_start - 2, ts.len());
            },
        }
        updated
    }
}


/// The largest body file, in bytes, that is loaded when its entry is read;
/// a larger one is read when its request is sent.
pub const MAX_PRELOADED_BODY: u64 = 16384;

/// Whether a body file is loaded at once: it is a file, and its size is known
/// and at most `MAX_PRELOADED_BODY`.
pub open spec fn preload(is_file: bool, size: Option<u64>) -> bool {
    is_file && (size matches Some(n) && n <= MAX_PRELOADED_BODY)
}

/// Whether the file at a redirected body's path is loaded now.
pub fn should_preload(is_file: bool, size: Option<u64>) -> (b: bool)
    ensures
        b == preload(is_file, size),
{
    is_file && match size {
        Some(n) => n <= MAX_PRELOADED_BODY,
        None => false,
    }
}

/// The body that a redirect to `path` gives, from what is known of the path:
/// whether it is a file, its size where it could be read, and what reading it
/// gave where it was read. A missing file gives no body, a small file its
/// content (nothing where reading it failed), a large file stays a file.
pub fn load_body_if_redirected(
    path: String,
    is_file: bool,
    size: Option<u64>,
    content: Option<Vec<u8>>,
) -> (r: BodyData)
    ensures
        !is_file ==> r@ == BodyView::NoBody,
        preload(is_file, size) ==> r@ == BodyView::Content(
            match content {
                Some(c) => c@,
                None => Seq::empty(),
            },
        ),
        is_file && !preload(is_file, size) ==> r@ == BodyView::File(path@),
{
    if is_file {
        if should_preload(is_file, size) {
            match content {
                Some(c) => BodyData::Content(c),
                None => BodyData::Content(Vec::new()),
            }
        } else {
            BodyData::File(path)
        }
    } else {
        BodyData::NoBody
    }
}

/// The state of a reader that hands out every `stride`-th url entry,
/// starting from the `offset`-th, so that several instances can share one url
/// file.
pub struct StrideView {
    pub stride: nat,
    pub offset: nat,
    pub position: nat,
    pub added_delay: nat,
}

/// The state of the filter after it takes an entry of delay `d`.
pub open spec fn stride_step(v: StrideView, d: nat) -> StrideView {
    StrideView {
        stride: v.stride,
        offset: v.offset,
        position: (v.position + 1) % v.stride,
        added_delay: if v.position == v.offset {
            0
        } else {
            nat_min(v.added_delay + d, MAX_NANOS as nat)
        },
    }
}

/// The delay of the entry that the filter sends when it takes an entry of
/// delay `d`, or `None` where it skips that entry.
pub open spec fn stride_sent(v: StrideView, d: nat) -> Option<nat> {
    if v.position == v.offset {
        Some(nat_min(d + v.added_delay, MAX_NANOS as nat))
    } else {
        None
    }
}

/// The state of the filter after it takes entries with the delays `ds`,
/// and the delays of the entries that it sends.
pub open spec fn stride_run(v: StrideView, ds: Seq<nat>) -> (StrideView, Seq<nat>)
    decreases ds.len(),
{
    if ds.len() == 0 {
        (v, Seq::empty())
    } else {
        let (w, sent) = stride_run(v, ds.drop_last());
        (
            stride_step(w, ds.last()),
            match stride_sent(w, ds.last()) {
                Some(x) => sent.push(x),
                None => sent,
            },
        )
    }
}

/// The sum of a sequence of delays.
pub open spec fn delay_sum(ds: Seq<nat>) -> nat
    decreases ds.len(),
{
    if ds.len() == 0 {
        0
    } else {
        delay_sum(ds.drop_last()) + ds.last()
    }
}

proof fn lemma_wrap(x: int, m: int)
    requires
        0 < m,
        0 <= x < 2 * m,
    ensures
        x % m == (if x < m { x } else { x - m }),
{
    if x < m {
        vstd::arithmetic::div_mod::lemma_small_mod(x as nat, m as nat);
    } else {
        vstd::arithmetic::div_mod::lemma_mod_add_multiples_vanish(x - m, m);
        vstd::arithmetic::div_mod::lemma_small_mod((x - m) as nat, m as nat);
    }
}

/// Within a round that starts just after a sent entry, the first
/// `stride - 1` entries are skipped and their delays add up.
proof fn lemma_stride_skips(v: StrideView, ds: Seq<nat>, j: int)
    requires
        v.stride >= 1,
        v.offset < v.stride,
        v.position == (v.offset + 1) % v.stride,
        v.added_delay == 0,
        0 <= j < v.stride,
        j <= ds.len(),
        delay_sum(ds.take(j)) <= MAX_NANOS,
    ensures
        stride_run(v, ds.take(j)) == (
            StrideView {
                stride: v.stride,
                offset: v.offset,
                position: ((v.offset + 1 + j) % (v.stride as int)) as nat,
                added_delay: delay_sum(ds.take(j)),
            },
            Seq::<nat>::empty(),
        ),
    decreases j,
{
    let m = v.stride as int;
    if j == 0 {
        assert(ds.take(0) =~= Seq::<nat>::empty());
    } else {
        let pre = ds.take(j - 1);
        assert(ds.take(j).drop_last() =~= pre);
        assert(ds.take(j).last() == ds[j - 1]);
        assert(delay_sum(pre) <= delay_sum(ds.take(j)));
        lemma_stride_skips(v, ds, j - 1);
        let x = v.offset + 1 + (j - 1);
        lemma_wrap(x, m);
        lemma_wrap(x + 1, m);
        let px = if x < m { x } else { x - m };
        lemma_wrap(px + 1, m);
        assert(px != v.offset);
    }
}

/// A round of `stride` entries that starts just after a sent entry sends
/// exactly one entry, the last of the round, whose delay is the sum of the
/// delays of the round: the calls keep the pace they would have had if the
/// skipped ones were sent too. The filter is then where the round began.
pub proof fn lemma_stride_round(v: StrideView, ds: Seq<nat>)
    requires
        v.stride >= 1,
        v.offset < v.stride,
        v.position == (v.offset + 1) % v.stride,
        v.added_delay == 0,
        ds.len() == v.stride,
        delay_sum(ds) <= MAX_NANOS,
    ensures
        stride_run(v, ds) == (v, seq![delay_sum(ds)]),
{
    let m = v.stride as int;
    let j = m - 1;
    let pre = ds.take(j);
    assert(ds.drop_last() =~= pre);
    assert(ds.take(m) =~= ds);
    assert(delay_sum(pre) <= delay_sum(ds));
    lemma_stride_skips(v, ds, j);
    let x = v.offset + 1 + j;
    lemma_wrap(x, m);
    lemma_wrap(v.offset + 1int, m);
    lemma_wrap(v.offset as int, m);
    assert(Seq::<nat>::empty().push(delay_sum(ds)) =~= seq![delay_sum(ds)]);
}

/// The same filter with another offset.
pub open spec fn with_offset(v: StrideView, o: nat) -> StrideView {
    StrideView { stride: v.stride, offset: o, position: v.position, added_delay: v.added_delay }
}

/// Instances that share a url file, one for each offset below the stride,
/// split it: they move through the file in step, whatever their offsets,
/// and each entry is sent by exactly one of them, the one whose offset is
/// the entry's position in its stride.
pub proof fn lemma_stride_split(v: StrideView, d: nat, o: nat)
    requires
        v.position < v.stride,
        o < v.stride,
    ensures
        stride_step(with_offset(v, o), d).position == stride_step(v, d).position,
        stride_sent(with_offset(v, o), d) is Some <==> o == v.position,
{
}

/// Decides which url entries this instance sends: of each `stride` entries
/// in a row, the one at `offset`. The delays of the entries that are skipped
/// are added to the next entry that is sent, so that calls keep the pace they
/// would have had if the skipped ones were sent too.
pub struct StrideFilter {
    stride: usize,
    offset: usize,
    position: usize,
    added_delay: Duration,
}

impl View for StrideFilter {
    type V = StrideView;

    closed spec fn view(&self) -> StrideView {
        StrideView {
            stride: self.stride as nat,
            offset: self.offset as nat,
            position: self.position as nat,
            added_delay: self.added_delay@,
        }
    }
}

impl StrideFilter {
    #[verifier::type_invariant]
    spec fn position_in_stride(self) -> bool {
        self.position < self.stride
    }

    /// A filter at the start of the url file. `stride` is at least one.
    pub fn new(stride: usize, offset: usize) -> (f: StrideFilter)
        requires
            stride >= 1,
        ensures
            f@ == (StrideView { stride: stride as nat, offset: offset as nat, position: 0, added_delay: 0 }),
    {
        StrideFilter { stride, offset, position: 0, added_delay: Duration::zero() }
    }

    /// Takes the next url entry of the file, and returns it where this
    /// instance sends it, its delay raised by the delays of the entries
    /// skipped since the last one sent (up to the longest span that can be
    /// held).
    pub fn take(&mut self, entry: UrlEntry) -> (r: Option<UrlEntry>)
        ensures
            final(self)@ == stride_step(old(self)@, entry@.delay),
            match r {
                Some(e) => stride_sent(old(self)@, entry@.delay) == Some(e@.delay),
                None => stride_sent(old(self)@, entry@.delay) is None,
            },
            final(self)@.position < final(self)@.stride,
            r matches Some(e) ==> {
                &&& e@.urlpart == entry@.urlpart
                &&& e@.method == entry@.method
                &&& e@.content_type == entry@.content_type
                &&& e@.body == entry@.body
            },
    {
        proof {
            use_type_invariant(&*self);
        }
        let emitted = if self.position == self.offset {
            let mut e = entry;
            e.delay = e.delay.saturating_add(&self.added_delay);
            self.added_delay = Duration::zero();
            Some(e)
        } else {
            self.added_delay = self.added_delay.saturating_add(&entry.delay);
            None
        };
        self.position = (self.position + 1) % self.stride;
        emitted
    }
}

} // verus!
