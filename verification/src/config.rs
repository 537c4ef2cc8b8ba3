use vstd::prelude::*;
use crate::text::chars_of;

verus! {

/// Unicode white space, as `char::is_whitespace` takes it.
pub open spec fn is_white_space(c: char) -> bool {
    let u = c as u32;
    (0x09 <= u && u <= 0x0D) || u == 0x20 || u == 0x85 || u == 0xA0 || u == 0x1680
        || (0x2000 <= u && u <= 0x200A) || u == 0x2028 || u == 0x2029 || u == 0x202F
        || u == 0x205F || u == 0x3000
}

/// Whether a character is white space.
pub fn white_space(c: char) -> (r: bool)
    ensures
        r == is_white_space(c),
{
    let u = c as u32;
    (0x09 <= u && u <= 0x0D) || u == 0x20 || u == 0x85 || u == 0xA0 || u == 0x1680
        || (0x2000 <= u && u <= 0x200A) || u == 0x2028 || u == 0x2029 || u == 0x202F
        || u == 0x205F || u == 0x3000
}

/// The text without its leading white space.
pub open spec fn trim_start(s: Seq<char>) -> Seq<char>
    decreases s.len(),
{
    if s.len() > 0 && is_white_space(s[0]) {
        trim_start(s.drop_first())
    } else {
        s
    }
}

/// The text without its trailing white space.
pub open spec fn trim_end(s: Seq<char>) -> Seq<char>
    decreases s.len(),
{
    if s.len() > 0 && is_white_space(s.last()) {
        trim_end(s.drop_last())
    } else {
        s
    }
}

/// The text without leading and trailing white space, as `str::trim` gives it.
pub open spec fn trim(s: Seq<char>) -> Seq<char> {
    trim_end(trim_start(s))
}

proof fn lemma_trim_start_skip(s: Seq<char>, i: int)
    requires
        0 <= i <= s.len(),
        forall|j: int| 0 <= j < i ==> is_white_space(#[trigger] s[j]),
    ensures
        trim_start(s) == trim_start(s.skip(i)),
    decreases i,
{
    if i > 0 {
        assert(s.drop_first().skip(i - 1) =~= s.skip(i));
        lemma_trim_start_skip(s.drop_first(), i - 1);
    } else {
        assert(s.skip(0) =~= s);
    }
}

proof fn lemma_trim_end_take(s: Seq<char>, i: int)
    requires
        0 <= i <= s.len(),
        forall|j: int| i <= j < s.len() ==> is_white_space(#[trigger] s[j]),
    ensures
        trim_end(s) == trim_end(s.take(i)),
    decreases s.len() - i,
{
    if i < s.len() {
        assert(s.drop_last().take(i) =~= s.take(i));
        lemma_trim_end_take(s.drop_last(), i);
    } else {
        assert(s.take(i) =~= s);
    }
}

/// The characters from `lo` to `hi` without leading and trailing white space.
pub fn trim_chars(cs: &Vec<char>, lo: usize, hi: usize) -> (r: String)
    requires
        lo <= hi <= cs@.len(),
    ensures
        r@ == trim(cs@.subrange(lo as int, hi as int)),
{
    let ghost s = cs@.subrange(lo as int, hi as int);
    let mut a: usize = lo;
    while a < hi && white_space(cs[a])
        invariant
            lo <= a <= hi <= cs@.len(),
            s == cs@.subrange(lo as int, hi as int),
            forall|j: int| lo <= j < a ==> is_white_space(#[trigger] cs@[j]),
        decreases hi - a,
    {
        a = a + 1;
    }
    proof {
        assert forall|j: int| 0 <= j < a - lo implies is_white_space(#[trigger] s[j]) by {
            assert(s[j] == cs@[lo + j]);
        }
        lemma_trim_start_skip(s, a - lo);
        let t = s.skip(a - lo);
        assert(t =~= cs@.subrange(a as int, hi as int));
        if a < hi {
            assert(t[0] == cs@[a as int]);
        }
        assert(trim_start(t) == t);
    }
    let mut b: usize = hi;
    while b > a && white_space(cs[b - 1])
        invariant
            lo <= a <= b <= hi <= cs@.len(),
            forall|j: int| b <= j < hi ==> is_white_space(#[trigger] cs@[j]),
        decreases b - a,
    {
        b = b - 1;
    }
    proof {
        let t = cs@.subrange(a as int, hi as int);
        assert forall|j: int| b - a <= j < t.len() implies is_white_space(#[trigger] t[j]) by {
            assert(t[j] == cs@[a + j]);
        }
        lemma_trim_end_take(t, b - a);
        let u = t.take(b - a);
        assert(u =~= cs@.subrange(a as int, b as int));
        if b > a {
            assert(u.last() == cs@[b - 1]);
        }
        assert(trim_end(u) == u);
    }
    let mut r = String::new();
    let mut i: usize = a;
    while i < b
        invariant
            a <= i <= b <= cs@.len(),
            r@ == cs@.subrange(a as int, i as int),
        decreases b - i,
    {
        crate::text::push_char(&mut r, cs[i]);
        i = i + 1;
        assert(r@ =~= cs@.subrange(a as int, i as int));
    }
    r
}

/// The pieces of a text found so far and the piece being read, after reading `s`.
pub open spec fn split_state(s: Seq<char>, sep: char) -> (Seq<Seq<char>>, Seq<char>)
    decreases s.len(),
{
    if s.len() == 0 {
        (Seq::empty(), Seq::empty())
    } else {
        let (done, cur) = split_state(s.drop_last(), sep);
        if s.last() == sep {
            (done.push(cur), Seq::empty())
        } else {
            (done, cur.push(s.last()))
        }
    }
}

/// The pieces between the separators, as `str::split` gives them.
pub open spec fn split_on(s: Seq<char>, sep: char) -> Seq<Seq<char>> {
    split_state(s, sep).0.push(split_state(s, sep).1)
}

/// The non-empty trimmed pieces of a comma-separated list.
pub open spec fn token_texts(raw: Seq<char>) -> Set<Seq<char>> {
    Set::new(|t: Seq<char>| t.len() > 0 && split_on(raw, ',').map_values(|p: Seq<char>| trim(p)).contains(t))
}

/// A set of API tokens; no token occurs twice.
pub struct ApiTokens {
    tokens: Vec<String>,
}

/// The texts of a list of strings.
pub open spec fn texts(v: Seq<String>) -> Seq<Seq<char>> {
    v.map_values(|s: String| s@)
}

impl ApiTokens {
    #[verifier::type_invariant]
    spec fn distinct(self) -> bool {
        texts(self.tokens@).no_duplicates()
    }

    /// The tokens, as texts.
    pub closed spec fn view(self) -> Set<Seq<char>> {
        texts(self.tokens@).to_set()
    }

    /// The number of tokens.
    pub fn len(&self) -> (r: usize)
        ensures
            r == self.view().len(),
    {
        proof {
            use_type_invariant(self);
            texts(self.tokens@).unique_seq_to_set();
        }
        self.tokens.len()
    }

    /// Whether there is no token.
    pub fn is_empty(&self) -> (r: bool)
        ensures
            r == (self.view().len() == 0),
    {
        self.len() == 0
    }

    /// Whether `token` is one of the tokens.
    pub fn contains(&self, token: &str) -> (r: bool)
        ensures
            r == self.view().contains(token@),
    {
        let mut i: usize = 0;
        while i < self.tokens.len()
            invariant
                i <= self.tokens@.len(),
                forall|j: int| 0 <= j < i ==> self.tokens@[j]@ != token@,
            decreases self.tokens@.len() - i,
        {
            if crate::text::str_eq(self.tokens[i].as_str(), token) {
                assert(texts(self.tokens@)[i as int] == token@);
                return true;
            }
            i = i + 1;
        }
        assert(!texts(self.tokens@).contains(token@));
        false
    }

    /// Adds a token unless it is there already.
    fn add(&mut self, token: String)
        ensures
            final(self).view() == old(self).view().insert(token@),
    {
        if !self.contains(token.as_str()) {
            proof { use_type_invariant(&*self); }
            let mut tokens: Vec<String> = Vec::new();
            std::mem::swap(&mut tokens, &mut self.tokens);
            let ghost before = texts(tokens@);
            let ghost t = token@;
            tokens.push(token);
            proof {
                assert(texts(tokens@) =~= before.push(t));
                before.lemma_push_to_set_commute(t);
            }
            self.tokens = tokens;
        }
    }
}

/// Reads the comma-separated API tokens: each piece trimmed, empty pieces dropped.
pub fn parse_api_tokens(raw: &str) -> (r: ApiTokens)
    ensures
        r.view() == token_texts(raw@),
{
    let cs = chars_of(raw);
    let mut tokens = ApiTokens { tokens: Vec::new() };
    let ghost mut pieces: Seq<Seq<char>> = Seq::empty();
    let mut start: usize = 0;
    let mut i: usize = 0;
    proof {
        assert(texts(tokens.tokens@) =~= Seq::empty());
    }
    while i < cs.len()
        invariant
            cs@ == raw@,
            start <= i <= cs@.len(),
            split_state(cs@.take(i as int), ',') == (pieces, cs@.subrange(start as int, i as int)),
            tokens.view() == Set::new(|t: Seq<char>| t.len() > 0 && pieces.map_values(|p: Seq<char>| trim(p)).contains(t)),
        decreases cs@.len() - i,
    {
        if cs[i] == ',' {
            let t = trim_chars(&cs, start, i);
            let ghost piece = cs@.subrange(start as int, i as int);
            proof { lemma_pieces_push(pieces, piece, tokens.view()); }
            if t.as_str().unicode_len() > 0 {
                tokens.add(t);
            }
            proof {
                pieces = pieces.push(piece);
                assert(cs@.take(i + 1).drop_last() =~= cs@.take(i as int));
                assert(cs@.take(i + 1).last() == ',');
                assert(cs@.subrange(i + 1, i + 1) =~= Seq::<char>::empty());
            }
            start = i + 1;
        } else {
            proof {
                assert(cs@.take(i + 1).drop_last() =~= cs@.take(i as int));
                assert(cs@.take(i + 1).last() == cs@[i as int]);
                assert(cs@.subrange(start as int, i + 1) =~= cs@.subrange(start as int, i as int).push(cs@[i as int]));
            }
        }
        i = i + 1;
    }
    let t = trim_chars(&cs, start, i);
    let ghost piece = cs@.subrange(start as int, i as int);
    proof { lemma_pieces_push(pieces, piece, tokens.view()); }
    if t.as_str().unicode_len() > 0 {
        tokens.add(t);
    }
    proof {
        pieces = pieces.push(piece);
        assert(cs@.take(i as int) =~= raw@);
    }
    tokens
}

/// Reading on past a piece with no separator in it only lengthens the piece being read.
proof fn lemma_split_separator_free_tail(x: Seq<char>, b: Seq<char>, sep: char)
    requires
        !b.contains(sep),
    ensures
        split_state(x + b, sep) == (split_state(x, sep).0, split_state(x, sep).1 + b),
    decreases b.len(),
{
    if b.len() == 0 {
        assert(x + b =~= x);
        assert(split_state(x, sep).1 + b =~= split_state(x, sep).1);
    } else {
        let b0 = b.drop_last();
        assert(!b0.contains(sep)) by {
            if b0.contains(sep) {
                let j = choose|j: int| 0 <= j < b0.len() && b0[j] == sep;
                assert(b[j] == sep);
            }
        }
        lemma_split_separator_free_tail(x, b0, sep);
        assert((x + b).drop_last() =~= x + b0);
        assert((x + b).last() == b[b.len() - 1]);
        assert(b[b.len() - 1] != sep);
        assert((split_state(x, sep).1 + b0).push(b.last()) =~= split_state(x, sep).1 + b);
    }
}

/// A list with no comma is a single token: its trimmed text, where that is not empty.
pub proof fn lemma_tokens_without_comma(raw: Seq<char>)
    requires
        !raw.contains(','),
    ensures
        token_texts(raw) == (if trim(raw).len() > 0 { set![trim(raw)] } else { Set::<Seq<char>>::empty() }),
{
    lemma_split_separator_free_tail(Seq::empty(), raw, ',');
    assert(Seq::<char>::empty() + raw =~= raw);
    assert(Seq::<Seq<char>>::empty().push(Seq::<char>::empty() + raw) =~= seq![raw]);
    let mapped = split_on(raw, ',').map_values(|p: Seq<char>| trim(p));
    assert(mapped =~= seq![trim(raw)]);
    assert forall|t: Seq<char>| mapped.contains(t) <==> t == trim(raw) by {
        if t == trim(raw) {
            assert(mapped[0] == t);
        }
    }
    if trim(raw).len() > 0 {
        assert(token_texts(raw) =~= set![trim(raw)]);
    } else {
        assert(token_texts(raw) =~= Set::<Seq<char>>::empty());
    }
}

/// Splitting off the last comma-free piece: the tokens of `a,b` are those of `a` together
/// with those of `b`.
pub proof fn lemma_tokens_split_last_comma(a: Seq<char>, b: Seq<char>)
    requires
        !b.contains(','),
    ensures
        token_texts(a + seq![','] + b) == token_texts(a).union(token_texts(b)),
{
    let x = a.push(',');
    assert(a + seq![','] + b =~= x + b);
    assert(x.drop_last() =~= a);
    assert(x.last() == ',');
    lemma_split_separator_free_tail(x, b, ',');
    assert(split_state(x, ',') == (split_on(a, ','), Seq::<char>::empty()));
    assert(Seq::<char>::empty() + b =~= b);
    assert(split_on(x + b, ',') =~= split_on(a, ',').push(b));
    lemma_pieces_push(split_on(a, ','), b, token_texts(a));
    lemma_tokens_without_comma(b);
    if trim(b).len() > 0 {
        assert(token_texts(a).insert(trim(b)) =~= token_texts(a).union(token_texts(b)));
    } else {
        assert(token_texts(a) =~= token_texts(a).union(token_texts(b)));
    }
    assert(token_texts(x + b) =~= Set::new(|t: Seq<char>| t.len() > 0 && split_on(a, ',').push(b).map_values(|p: Seq<char>| trim(p)).contains(t)));
}

/// Adding a piece to the pieces read adds its trimmed text, if not empty, to the tokens.
proof fn lemma_pieces_push(pieces: Seq<Seq<char>>, piece: Seq<char>, tokens: Set<Seq<char>>)
    requires
        tokens == Set::new(|t: Seq<char>| t.len() > 0 && pieces.map_values(|p: Seq<char>| trim(p)).contains(t)),
    ensures
        (if trim(piece).len() > 0 { tokens.insert(trim(piece)) } else { tokens })
            == Set::new(|t: Seq<char>| t.len() > 0 && pieces.push(piece).map_values(|p: Seq<char>| trim(p)).contains(t)),
{
    let mapped_old = pieces.map_values(|p: Seq<char>| trim(p));
    let mapped = pieces.push(piece).map_values(|p: Seq<char>| trim(p));
    assert(mapped =~= mapped_old.push(trim(piece)));
    assert forall|x: Seq<char>| mapped.contains(x) <==> (mapped_old.contains(x) || x == trim(piece)) by {
        if mapped.contains(x) {
            let j = choose|j: int| 0 <= j < mapped.len() && mapped[j] == x;
            if j < mapped_old.len() {
                assert(mapped_old[j] == x);
            }
        }
        if mapped_old.contains(x) {
            let j = choose|j: int| 0 <= j < mapped_old.len() && mapped_old[j] == x;
            assert(mapped[j] == x);
        }
        if x == trim(piece) {
            assert(mapped[mapped.len() - 1] == x);
        }
    }
    let rhs = Set::new(|t: Seq<char>| t.len() > 0 && mapped.contains(t));
    if trim(piece).len() > 0 {
        assert(tokens.insert(trim(piece)) =~= rhs);
    } else {
        assert(tokens =~= rhs);
    }
}

/// The decimal value of a string of digits.
pub open spec fn digits_value(d: Seq<char>) -> nat
    decreases d.len(),
{
    if d.len() == 0 {
        0
    } else {
        digits_value(d.drop_last()) * 10 + ((d.last() as u32) - 48) as nat
    }
}

/// Whether a character is an ASCII digit.
pub open spec fn is_digit(c: char) -> bool {
    '0' <= c && c <= '9'
}

/// The number that an unsigned integer's `from_str` reads from a text, before its range is
/// checked: an optional `+`, then one or more ASCII digits.
pub open spec fn unsigned_text_value(s: Seq<char>) -> Option<nat> {
    if unsigned_digits(s).len() > 0 && all_digits(unsigned_digits(s)) {
        Some(digits_value(unsigned_digits(s)))
    } else {
        None
    }
}

/// The text without one leading `+`.
pub open spec fn unsigned_digits(s: Seq<char>) -> Seq<char> {
    if s.len() > 0 && s[0] == '+' { s.drop_first() } else { s }
}

/// Whether every character is an ASCII digit.
pub open spec fn all_digits(d: Seq<char>) -> bool {
    forall|i: int| 0 <= i < d.len() ==> is_digit(#[trigger] d[i])
}

/// Reads an unsigned number no greater than `max`, as the `from_str` of Rust's unsigned
/// integer types does.
pub fn parse_unsigned(s: &str, max: u64) -> (r: Option<u64>)
    ensures
        match r {
            Some(v) => unsigned_text_value(s@) == Some(v as nat) && v <= max,
            None => !(unsigned_text_value(s@) matches Some(v) && v <= max),
        },
{
    let cs = chars_of(s);
    let start: usize = if cs.len() > 0 && cs[0] == '+' { 1 } else { 0 };
    let ghost digits = unsigned_digits(s@);
    assert(digits =~= cs@.skip(start as int));
    if start >= cs.len() {
        return None;
    }
    let mut v: u128 = 0;
    let mut i: usize = start;
    while i < cs.len()
        invariant
            cs@ == s@,
            start <= i <= cs@.len(),
            digits == cs@.skip(start as int),
            digits == unsigned_digits(s@),
            forall|j: int| start <= j < i ==> is_digit(#[trigger] cs@[j]),
            v == digits_value(cs@.subrange(start as int, i as int)),
            v <= max,
        decreases cs@.len() - i,
    {
        let c = cs[i];
        if !('0' <= c && c <= '9') {
            assert(!is_digit(digits[i - start]));
            assert(!all_digits(digits));
            return None;
        }
        let d = (c as u32 - 48) as u128;
        proof {
            let p = cs@.subrange(start as int, i + 1);
            assert(p.drop_last() =~= cs@.subrange(start as int, i as int));
            assert(p.last() == c);
        }
        v = v * 10 + d;
        if v > max as u128 {
            proof {
                if all_digits(digits) {
                    lemma_digits_value_grows(digits, i + 1 - start);
                    assert(digits.take(i + 1 - start) =~= cs@.subrange(start as int, i + 1));
                }
            }
            return None;
        }
        i = i + 1;
    }
    assert(cs@.subrange(start as int, cs@.len() as int) =~= digits);
    Some(v as u64)
}

/// A string of digits is worth at least any of its prefixes.
proof fn lemma_digits_value_grows(d: Seq<char>, n: int)
    requires
        0 <= n <= d.len(),
        forall|i: int| 0 <= i < d.len() ==> is_digit(#[trigger] d[i]),
    ensures
        digits_value(d.take(n)) <= digits_value(d),
    decreases d.len() - n,
{
    if n < d.len() {
        assert(d.drop_last().take(n) =~= d.take(n));
        assert forall|i: int| 0 <= i < d.drop_last().len() implies is_digit(#[trigger] d.drop_last()[i]) by {
            assert(d.drop_last()[i] == d[i]);
        }
        lemma_digits_value_grows(d.drop_last(), n);
    } else {
        assert(d.take(n) =~= d);
    }
}


/// The values of the environment variables that configure the service; `None` where a
/// variable is not set.
pub struct EnvVars {
    pub github_client_id: Option<String>,
    pub github_client_secret: Option<String>,
    pub github_org: Option<String>,
    pub github_team: Option<String>,
    pub session_secret: Option<String>,
    pub host: Option<String>,
    pub port: Option<String>,
    pub redis_url: Option<String>,
    pub max_pending_requests: Option<String>,
    pub api_tokens: Option<String>,
    pub production: Option<String>,
}

/// The settings read from the environment, all but the clock drift.
pub struct Settings {
    pub github_client_id: String,
    pub github_client_secret: String,
    pub github_org: String,
    pub github_team: String,
    pub session_secret: Vec<u8>,
    pub host: String,
    pub port: u16,
    pub redis_url: Option<String>,
    pub max_pending_requests: usize,
    pub api_tokens: ApiTokens,
    pub production: bool,
}

/// Why the settings could not be read.
#[derive(Debug, PartialEq, Eq)]
pub enum ConfigError {
    /// A required variable is not set; its name.
    Missing(String),
    /// `PORT` is no port number.
    InvalidPort,
    /// `MAX_PENDING_REQUESTS` is no count.
    InvalidMaxPendingRequests,
}

/// The text of an optional setting, or its default.
pub open spec fn text_or(v: Option<String>, default: Seq<char>) -> Seq<char> {
    match v {
        Some(s) => s@,
        None => default,
    }
}

/// The error, if any, that reading the settings runs into first.
pub open spec fn settings_error(vars: EnvVars) -> Option<ConfigError> {
    if vars.github_client_id is None {
        Some(ConfigError::Missing(missing_name("GITHUB_CLIENT_ID"@)))
    } else if vars.github_client_secret is None {
        Some(ConfigError::Missing(missing_name("GITHUB_CLIENT_SECRET"@)))
    } else if vars.github_org is None {
        Some(ConfigError::Missing(missing_name("GITHUB_ORG"@)))
    } else if vars.github_team is None {
        Some(ConfigError::Missing(missing_name("GITHUB_TEAM"@)))
    } else if vars.session_secret is None {
        Some(ConfigError::Missing(missing_name("SESSION_SECRET"@)))
    } else if !(unsigned_text_value(text_or(vars.port, "3000"@)) matches Some(p) && p <= u16::MAX) {
        Some(ConfigError::InvalidPort)
    } else if !(unsigned_text_value(text_or(vars.max_pending_requests, "10"@)) matches Some(n) && n <= usize::MAX) {
        Some(ConfigError::InvalidMaxPendingRequests)
    } else {
        None
    }
}

/// The error for a missing variable carries a string with the variable's name.
pub open spec fn missing_name(name: Seq<char>) -> String {
    choose|s: String| s@ == name
}

/// A missing required variable.
fn missing(name: &str) -> (r: ConfigError)
    ensures
        r matches ConfigError::Missing(n) && n@ == name@,
{
    ConfigError::Missing(String::from_str(name))
}

/// Reads the settings from the values of the environment variables: the GitHub client,
/// organization and team and the session secret are required; `HOST` defaults to
/// `127.0.0.1`, `PORT` to `3000`, `MAX_PENDING_REQUESTS` to `10`; `API_TOKENS` is a
/// comma-separated list; `PRODUCTION` is on exactly when it is `true`.
pub fn settings_from_vars(vars: EnvVars) -> (r: Result<Settings, ConfigError>)
    ensures
        match r {
            Ok(st) => settings_error(vars) is None
                && vars.github_client_id == Some(st.github_client_id)
                && vars.github_client_secret == Some(st.github_client_secret)
                && vars.github_org == Some(st.github_org)
                && vars.github_team == Some(st.github_team)
                && st.session_secret@ == vstd::utf8::encode_utf8(text_or(vars.session_secret, Seq::empty()))
                && st.host@ == text_or(vars.host, "127.0.0.1"@)
                && unsigned_text_value(text_or(vars.port, "3000"@)) == Some(st.port as nat)
                && st.redis_url == vars.redis_url
                && unsigned_text_value(text_or(vars.max_pending_requests, "10"@)) == Some(st.max_pending_requests as nat)
                && st.api_tokens.view() == token_texts(text_or(vars.api_tokens, Seq::empty()))
                && st.production == (text_or(vars.production, "false"@) == "true"@),
            Err(e) => settings_error(vars) matches Some(f) && (match (e, f) {
                (ConfigError::Missing(a), ConfigError::Missing(b)) => a@ == b@,
                _ => e == f,
            }),
        },
{
    let github_client_id = match vars.github_client_id { Some(v) => v, None => return Err(missing("GITHUB_CLIENT_ID")) };
    let github_client_secret = match vars.github_client_secret { Some(v) => v, None => return Err(missing("GITHUB_CLIENT_SECRET")) };
    let github_org = match vars.github_org { Some(v) => v, None => return Err(missing("GITHUB_ORG")) };
    let github_team = match vars.github_team { Some(v) => v, None => return Err(missing("GITHUB_TEAM")) };
    let session_secret: Vec<u8> = match &vars.session_secret {
        Some(v) => v.as_str().as_bytes_vec(),
        None => return Err(missing("SESSION_SECRET")),
    };
    let host = match vars.host { Some(v) => v, None => String::from_str("127.0.0.1") };
    let port_text = match &vars.port { Some(v) => v.clone(), None => String::from_str("3000") };
    let port: u16 = match parse_unsigned(port_text.as_str(), 65535) {
        Some(p) => p as u16,
        None => return Err(ConfigError::InvalidPort),
    };
    let max_text = match &vars.max_pending_requests { Some(v) => v.clone(), None => String::from_str("10") };
    let max_pending_requests: usize = match parse_unsigned(max_text.as_str(), usize::MAX as u64) {
        Some(n) => n as usize,
        None => return Err(ConfigError::InvalidMaxPendingRequests),
    };
    let api_tokens = match &vars.api_tokens {
        Some(v) => parse_api_tokens(v.as_str()),
        None => parse_api_tokens(""),
    };
    let production = match &vars.production {
        Some(v) => crate::text::str_eq(v.as_str(), "true"),
        None => false,
    };
    proof {
        reveal_strlit("");
        reveal_strlit("false");
        reveal_strlit("true");
        assert("false"@ != "true"@) by { assert("false"@[0] != "true"@[0]); }
    }
    Ok(Settings {
        github_client_id,
        github_client_secret,
        github_org,
        github_team,
        session_secret,
        host,
        port,
        redis_url: vars.redis_url,
        max_pending_requests,
        api_tokens,
        production,
    })
}


/// Decimal notation reads back: what `decimal_string` writes, an unsigned `from_str`
/// reads as the same number.
pub proof fn lemma_decimal_reads_back(n: nat)
    ensures
        unsigned_text_value(crate::text::decimal(n)) == Some(n),
{
    lemma_decimal_digits(n);
    let d = crate::text::decimal(n);
    assert(unsigned_digits(d) == d);
}

proof fn lemma_decimal_digits(n: nat)
    ensures
        crate::text::decimal(n).len() > 0,
        all_digits(crate::text::decimal(n)),
        crate::text::decimal(n)[0] != '+',
        digits_value(crate::text::decimal(n)) == n,
    decreases n,
{
    let d = crate::text::decimal(n);
    if n < 10 {
        assert(d == seq![crate::text::digit_char(n)]);
        assert(d.drop_last() =~= Seq::<char>::empty());
        assert((crate::text::digit_char(n) as u32) == n + 48);
        assert(d.last() == crate::text::digit_char(n));
        assert(digits_value(d) == digits_value(d.drop_last()) * 10 + ((d.last() as u32) - 48) as nat);
        assert(digits_value(d.drop_last()) == 0);
    } else {
        lemma_decimal_digits(n / 10);
        let prefix = crate::text::decimal(n / 10);
        assert(d == prefix.push(crate::text::digit_char(n % 10)));
        assert(d.drop_last() =~= prefix);
        assert forall|i: int| 0 <= i < d.len() implies is_digit(#[trigger] d[i]) by {
            if i < prefix.len() {
                assert(d[i] == prefix[i]);
            }
        }
        assert(d[0] == prefix[0]);
        assert((crate::text::digit_char(n % 10) as u32) == n % 10 + 48);
        assert(n == (n / 10) * 10 + n % 10) by (nonlinear_arith);
        assert(d.last() == crate::text::digit_char(n % 10));
        assert(digits_value(d) == digits_value(d.drop_last()) * 10 + ((d.last() as u32) - 48) as nat);
    }
}

} // verus!
