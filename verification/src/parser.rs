//! The interactive driver's command parser: one line of text becomes a
//! client command and an optional explicit target port. The grammar is
//! `put <key> <value>`, `get <key>`, `delete <key>`, each with an optional
//! trailing port; the line is trimmed and split on single spaces.

use vstd::prelude::*;

use crate::kv::{KVCommand, KeyValue};

verus! {

/// Whitespace trimmed from the ends of an input line: the characters with
/// the Unicode `White_Space` property, as `str::trim` removes them.
pub open spec fn is_space(c: char) -> bool {
    ||| c as u32 == 0x20
    ||| 0x9 <= c as u32 <= 0xD
    ||| c as u32 == 0x85
    ||| c as u32 == 0xA0
    ||| c as u32 == 0x1680
    ||| 0x2000 <= c as u32 <= 0x200A
    ||| c as u32 == 0x2028
    ||| c as u32 == 0x2029
    ||| c as u32 == 0x202F
    ||| c as u32 == 0x205F
    ||| c as u32 == 0x3000
}

/// The line without leading whitespace.
pub open spec fn trim_front(s: Seq<char>) -> Seq<char>
    decreases s.len(),
{
    if s.len() > 0 && is_space(s[0]) {
        trim_front(s.drop_first())
    } else {
        s
    }
}

/// The line without trailing whitespace.
pub open spec fn trim_back(s: Seq<char>) -> Seq<char>
    decreases s.len(),
{
    if s.len() > 0 && is_space(s.last()) {
        trim_back(s.drop_last())
    } else {
        s
    }
}

/// The line without whitespace at either end.
pub open spec fn trim_spec(s: Seq<char>) -> Seq<char> {
    trim_back(trim_front(s))
}

/// Splitting on single spaces, with `cur` the token read so far: empty
/// tokens between consecutive spaces are kept.
pub open spec fn split_acc(s: Seq<char>, cur: Seq<char>) -> Seq<Seq<char>>
    decreases s.len(),
{
    if s.len() == 0 {
        seq![cur]
    } else if s[0] == ' ' {
        seq![cur] + split_acc(s.drop_first(), Seq::empty())
    } else {
        split_acc(s.drop_first(), cur.push(s[0]))
    }
}

/// The tokens of a line: maximal runs between single spaces.
pub open spec fn split_tokens(s: Seq<char>) -> Seq<Seq<char>> {
    split_acc(s, Seq::empty())
}

/// Splitting yields at least one (possibly empty) token.
pub proof fn lemma_split_acc_nonempty(s: Seq<char>, cur: Seq<char>)
    ensures
        split_acc(s, cur).len() >= 1,
    decreases s.len(),
{
    if s.len() > 0 && s[0] != ' ' {
        lemma_split_acc_nonempty(s.drop_first(), cur.push(s[0]));
    }
}

/// A decimal digit.
pub open spec fn is_digit(c: char) -> bool {
    48 <= c as u32 <= 57
}

pub open spec fn digit_val(c: char) -> int {
    c as u32 - 48
}

pub open spec fn all_digits(s: Seq<char>) -> bool {
    forall|i: int| 0 <= i < s.len() ==> is_digit(s[i])
}

/// The number a run of decimal digits denotes.
pub open spec fn dec_value(s: Seq<char>) -> int
    decreases s.len(),
{
    if s.len() == 0 {
        0
    } else {
        dec_value(s.drop_last()) * 10 + digit_val(s.last())
    }
}

/// A token that parses as a 64-bit port number.
pub open spec fn valid_u64(s: Seq<char>) -> bool {
    s.len() > 0 && all_digits(s) && dec_value(s) <= u64::MAX as int
}

pub proof fn lemma_dec_value_nonneg(s: Seq<char>)
    requires
        all_digits(s),
    ensures
        dec_value(s) >= 0,
    decreases s.len(),
{
    if s.len() > 0 {
        lemma_dec_value_nonneg(s.drop_last());
    }
}

/// A digit run's value only grows as more digits follow.
pub proof fn lemma_dec_value_prefix(s: Seq<char>, j: int)
    requires
        all_digits(s),
        0 <= j <= s.len(),
    ensures
        dec_value(s.take(j)) <= dec_value(s),
    decreases s.len(),
{
    if j == s.len() {
        assert(s.take(j) =~= s);
    } else {
        assert(all_digits(s.drop_last()));
        assert(s.drop_last().take(j) =~= s.take(j));
        lemma_dec_value_prefix(s.drop_last(), j);
        lemma_dec_value_nonneg(s.drop_last());
    }
}

/// What the optional trailing port token must denote.
pub open spec fn port_matches(tokens: Seq<Seq<char>>, idx: int, port: Option<u64>) -> bool {
    if tokens.len() <= idx {
        port is None
    } else {
        match port {
            Some(p) => valid_u64(tokens[idx]) && dec_value(tokens[idx]) == p as int,
            None => false,
        }
    }
}

/// The trailing port position is either absent or a well-formed number.
pub open spec fn port_token_ok(tokens: Seq<Seq<char>>, idx: int) -> bool {
    tokens.len() <= idx || valid_u64(tokens[idx])
}

/// The token lists that denote a command.
pub open spec fn parseable(tokens: Seq<Seq<char>>) -> bool {
    tokens.len() >= 1 && {
        if tokens[0] == "delete"@ || tokens[0] == "get"@ {
            tokens.len() >= 2 && port_token_ok(tokens, 2)
        } else if tokens[0] == "put"@ {
            tokens.len() >= 3 && port_token_ok(tokens, 3)
        } else {
            false
        }
    }
}

/// The command and port a parseable token list denotes.
pub open spec fn parse_ok(tokens: Seq<Seq<char>>, cmd: KVCommand, port: Option<u64>) -> bool {
    tokens.len() >= 1 && {
        if tokens[0] == "delete"@ {
            &&& tokens.len() >= 2
            &&& match cmd {
                KVCommand::Delete(k) => k@ == tokens[1],
                _ => false,
            }
            &&& port_matches(tokens, 2, port)
        } else if tokens[0] == "get"@ {
            &&& tokens.len() >= 2
            &&& match cmd {
                KVCommand::Get(k) => k@ == tokens[1],
                _ => false,
            }
            &&& port_matches(tokens, 2, port)
        } else if tokens[0] == "put"@ {
            &&& tokens.len() >= 3
            &&& match cmd {
                KVCommand::Put(kv) => kv.key@ == tokens[1] && kv.value@ == tokens[2],
                _ => false,
            }
            &&& port_matches(tokens, 3, port)
        } else {
            false
        }
    }
}

/// The reason a token list outside the grammar is rejected: a known verb
/// short of arguments, a known verb with a malformed port token, the `help`
/// verb's usage text, or an unknown verb.
pub open spec fn parse_error_of(tokens: Seq<Seq<char>>) -> Seq<char> {
    if tokens.len() >= 1 && (tokens[0] == "delete"@ || tokens[0] == "get"@) {
        if tokens.len() < 2 {
            "Not enough arguments"@
        } else {
            "Invalid port"@
        }
    } else if tokens.len() >= 1 && tokens[0] == "put"@ {
        if tokens.len() < 3 {
            "Not enough arguments"@
        } else {
            "Invalid port"@
        }
    } else if tokens.len() >= 1 && tokens[0] == "help"@ {
        "Commands: put <key> <value>, get <key>, delete <key> (optional <port>)"@
    } else {
        "Invalid command type"@
    }
}

/// Exec token list and spec token list agree element by element.
pub open spec fn views_match(tokens: Seq<String>, specs: Seq<Seq<char>>) -> bool {
    &&& tokens.len() == specs.len()
    &&& forall|i: int| 0 <= i < tokens.len() ==> tokens[i]@ == specs[i]
}

/// A locally reported reason a line was not relayed.
pub struct ParseCommandError {
    msg: String,
}

impl View for ParseCommandError {
    type V = Seq<char>;

    closed spec fn view(&self) -> Seq<char> {
        self.msg@
    }
}

impl ParseCommandError {
    fn new(msg: &str) -> (r: ParseCommandError)
        ensures
            r@ == msg@,
    {
        ParseCommandError { msg: String::from_str(msg) }
    }

    /// The human-readable reason.
    pub fn message(&self) -> (r: &String)
        ensures
            r@ == self@,
    {
        &self.msg
    }
}

fn is_space_exec(c: char) -> (r: bool)
    ensures
        r == is_space(c),
{
    let cu = c as u32;
    cu == 0x20 || (0x9 <= cu && cu <= 0xD) || cu == 0x85 || cu == 0xA0 || cu == 0x1680 || (0x2000
        <= cu && cu <= 0x200A) || cu == 0x2028 || cu == 0x2029 || cu == 0x202F || cu == 0x205F
        || cu == 0x3000
}

/// Parse a port token: every digit, value within 64 bits.
fn parse_u64(s: &String) -> (r: Option<u64>)
    ensures
        match r {
            Some(v) => valid_u64(s@) && dec_value(s@) == v as int,
            None => !valid_u64(s@),
        },
{
    let st = s.as_str();
    let n = st.unicode_len();
    if n == 0 {
        return None;
    }
    let mut value: u64 = 0;
    let mut i: usize = 0;
    while i < n
        invariant
            i <= n,
            n == s@.len(),
            st@ == s@,
            all_digits(s@.take(i as int)),
            value as int == dec_value(s@.take(i as int)),
        decreases n - i,
    {
        let c = st.get_char(i);
        let cu = c as u32;
        if cu < 48 || cu > 57 {
            assert(!is_digit(s@[i as int]));
            return None;
        }
        let d = (cu - 48) as u64;
        let ghost pre = s@.take(i as int);
        proof {
            assert(s@.take(i as int + 1).drop_last() =~= pre);
            assert(s@.take(i as int + 1).last() == s@[i as int]);
        }
        let step = match value.checked_mul(10) {
            Some(v10) => v10.checked_add(d),
            None => None,
        };
        match step {
            Some(v) => {
                value = v;
            },
            None => {
                proof {
                    assert(all_digits(s@.take(i as int + 1)));
                    assert(dec_value(s@.take(i as int + 1)) > u64::MAX as int);
                    if all_digits(s@) {
                        lemma_dec_value_prefix(s@, i as int + 1);
                    }
                }
                return None;
            },
        }
        i += 1;
    }
    assert(s@.take(n as int) =~= s@);
    Some(value)
}

/// Split a trimmed line on single spaces, keeping empty tokens.
fn tokenize(t: &str) -> (r: Vec<String>)
    ensures
        views_match(r@, split_tokens(t@)),
{
    let n = t.unicode_len();
    let mut tokens: Vec<String> = Vec::new();
    let mut cur_start: usize = 0;
    let mut i: usize = 0;
    assert(t@.skip(0) =~= t@);
    assert(t@.subrange(0, 0) =~= Seq::<char>::empty());
    while i < n
        invariant
            cur_start <= i <= n,
            n == t@.len(),
            views_match(tokens@, split_tokens(t@).take(tokens@.len() as int)),
            split_tokens(t@) =~= split_tokens(t@).take(tokens@.len() as int) + split_acc(
                t@.skip(i as int),
                t@.subrange(cur_start as int, i as int),
            ),
        decreases n - i,
    {
        let ghost cur = t@.subrange(cur_start as int, i as int);
        let ghost rest = t@.skip(i as int);
        proof {
            assert(rest[0] == t@[i as int]);
            assert(rest.drop_first() =~= t@.skip(i as int + 1));
        }
        if t.get_char(i) == ' ' {
            let tok = t.substring_char(cur_start, i);
            let ghost done = tokens@.len() as int;
            tokens.push(String::from_str(tok));
            cur_start = i + 1;
            proof {
                assert(split_acc(rest, cur) =~= seq![cur] + split_acc(
                    t@.skip(i as int + 1),
                    Seq::empty(),
                ));
                assert(split_tokens(t@).take(done + 1) =~= split_tokens(t@).take(done) + seq![
                    split_tokens(t@)[done],
                ]);
                assert(t@.subrange(i as int + 1, i as int + 1) =~= Seq::<char>::empty());
            }
        } else {
            proof {
                assert(split_acc(rest, cur) == split_acc(
                    t@.skip(i as int + 1),
                    cur.push(t@[i as int]),
                ));
                assert(cur.push(t@[i as int]) =~= t@.subrange(cur_start as int, i as int + 1));
            }
        }
        i += 1;
    }
    assert(t@.skip(n as int) =~= Seq::<char>::empty());
    let tok = t.substring_char(cur_start, n);
    let ghost done = tokens@.len() as int;
    tokens.push(String::from_str(tok));
    proof {
        assert(split_tokens(t@).take(done + 1) =~= split_tokens(t@).take(done) + seq![
            split_tokens(t@)[done],
        ]);
        assert(split_tokens(t@).take(tokens@.len() as int) =~= split_tokens(t@));
    }
    tokens
}

/// Parse one line of the driver's text protocol. The result is exactly the
/// command and optional target port the tokens denote; a line outside the
/// grammar — and the `help` verb — is reported as a local error, with the
/// reason pinned per case, and relayed nowhere.
pub fn parse_command(line: String) -> (r: Result<(KVCommand, Option<u64>), ParseCommandError>)
    ensures
        ({
            let tokens = split_tokens(trim_spec(line@));
            &&& (r is Ok <==> parseable(tokens))
            &&& match r {
                Ok(cp) => parse_ok(tokens, cp.0, cp.1),
                Err(e) => e@ == parse_error_of(tokens),
            }
        }),
{
    let s = line.as_str();
    let n = s.unicode_len();
    let mut start: usize = 0;
    assert(s@.skip(0) =~= s@);
    while start < n && is_space_exec(s.get_char(start))
        invariant
            start <= n,
            n == s@.len(),
            s@ == line@,
            trim_front(s@.skip(start as int)) == trim_front(s@),
        decreases n - start,
    {
        proof {
            assert(s@.skip(start as int).drop_first() =~= s@.skip(start as int + 1));
        }
        start += 1;
    }
    let ghost fr = s@.skip(start as int);
    proof {
        if start < n {
            assert(fr[0] == s@[start as int]);
        }
        assert(trim_front(fr) == fr);
        assert(s@.subrange(start as int, n as int) =~= fr);
    }
    let mut end: usize = n;
    while end > start && is_space_exec(s.get_char(end - 1))
        invariant
            start <= end <= n,
            n == s@.len(),
            s@ == line@,
            trim_front(s@.skip(start as int)) == s@.skip(start as int),
            trim_back(s@.subrange(start as int, end as int)) == trim_back(s@.skip(start as int)),
        decreases end,
    {
        proof {
            let seg = s@.subrange(start as int, end as int);
            assert(seg.last() == s@[end - 1]);
            assert(seg.drop_last() =~= s@.subrange(start as int, end as int - 1));
        }
        end -= 1;
    }
    let ghost seg = s@.subrange(start as int, end as int);
    proof {
        if end > start {
            assert(seg.last() == s@[end - 1]);
        }
        assert(trim_back(seg) == seg);
        assert(seg == trim_spec(line@));
    }
    let t = s.substring_char(start, end);
    let tokens = tokenize(t);
    let ghost specs = split_tokens(trim_spec(line@));
    proof {
        lemma_split_acc_nonempty(t@, Seq::empty());
        assert(tokens@.map_values(|x: String| x@) =~= specs);
    }
    let verb = &tokens[0];
    if verb.eq(&String::from_str("delete")) {
        if tokens.len() < 2 {
            return Err(ParseCommandError::new("Not enough arguments"));
        }
        let key = tokens[1].clone();
        match parse_port_at(&tokens, 2) {
            Some(port) => Ok((KVCommand::Delete(key), port)),
            None => Err(ParseCommandError::new("Invalid port")),
        }
    } else if verb.eq(&String::from_str("get")) {
        if tokens.len() < 2 {
            return Err(ParseCommandError::new("Not enough arguments"));
        }
        let key = tokens[1].clone();
        match parse_port_at(&tokens, 2) {
            Some(port) => Ok((KVCommand::Get(key), port)),
            None => Err(ParseCommandError::new("Invalid port")),
        }
    } else if verb.eq(&String::from_str("put")) {
        if tokens.len() < 3 {
            return Err(ParseCommandError::new("Not enough arguments"));
        }
        let key = tokens[1].clone();
        let value = tokens[2].clone();
        match parse_port_at(&tokens, 3) {
            Some(port) => Ok((KVCommand::Put(KeyValue { key, value }), port)),
            None => Err(ParseCommandError::new("Invalid port")),
        }
    } else if verb.eq(&String::from_str("help")) {
        Err(
            ParseCommandError::new(
                "Commands: put <key> <value>, get <key>, delete <key> (optional <port>)",
            ),
        )
    } else {
        Err(ParseCommandError::new("Invalid command type"))
    }
}

/// Read the optional port token at `idx`: absent is fine, a malformed or
/// out-of-range number is not.
fn parse_port_at(tokens: &Vec<String>, idx: usize) -> (r: Option<Option<u64>>)
    ensures
        match r {
            Some(port) => port_token_ok(
                tokens@.map_values(|x: String| x@),
                idx as int,
            ) && port_matches(tokens@.map_values(|x: String| x@), idx as int, port),
            None => !port_token_ok(tokens@.map_values(|x: String| x@), idx as int),
        },
{
    if tokens.len() <= idx {
        Some(None)
    } else {
        match parse_u64(&tokens[idx]) {
            Some(v) => Some(Some(v)),
            None => None,
        }
    }
}

} // verus!
