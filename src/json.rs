use vstd::prelude::*;
use crate::node::{Access, OscNode};

verus! {

#[verifier::external_type_specification]
#[verifier::external_body]
pub struct ExJsonError(serde_json::Error);

/// The lower-case hexadecimal digit for `d < 16`.
pub open spec fn hex_digit(d: int) -> char {
    seq!['0', '1', '2', '3', '4', '5', '6', '7', '8', '9', 'a', 'b', 'c', 'd', 'e', 'f'][d]
}

/// How one character stands inside a JSON string: the quote, the backslash and the
/// control characters are escaped (the short forms where JSON has one, else `\u00XX`);
/// every other character stands for itself.
pub open spec fn escape_char(c: char) -> Seq<char> {
    if c == '"' {
        seq!['\\', '"']
    } else if c == '\\' {
        seq!['\\', '\\']
    } else if c == '\u{8}' {
        seq!['\\', 'b']
    } else if c == '\t' {
        seq!['\\', 't']
    } else if c == '\n' {
        seq!['\\', 'n']
    } else if c == '\u{c}' {
        seq!['\\', 'f']
    } else if c == '\r' {
        seq!['\\', 'r']
    } else if (c as u32) < 0x20 {
        seq!['\\', 'u', '0', '0', hex_digit((c as int) / 16), hex_digit((c as int) % 16)]
    } else {
        seq![c]
    }
}

/// The characters of `s`, each escaped as inside a JSON string.
pub open spec fn escaped(s: Seq<char>) -> Seq<char>
    decreases s.len(),
{
    if s.len() == 0 {
        Seq::empty()
    } else {
        escaped(s.drop_last()) + escape_char(s.last())
    }
}

/// The JSON string literal that stands for `s`: quotes and escapes included.
#[verifier::opaque]
pub open spec fn json_quoted(s: Seq<char>) -> Seq<char> {
    seq!['"'] + escaped(s) + seq!['"']
}

/// Relies on `serde_json::to_string` on a `str`: it writes the JSON string literal of
/// its argument (escape table `ESCAPE` and `write_char_escape` in `ser.rs`) into a `Vec`,
/// which cannot fail, so the result is always `Ok`.
#[verifier::external_body]
pub(crate) fn quote_json(s: &str) -> (r: Result<String, serde_json::Error>)
    ensures
        r is Ok,
        r matches Ok(t) ==> t@ == json_quoted(s@),
{
    serde_json::to_string(s)
}

/// The decimal digit for `d < 10`.
pub open spec fn digit_char(d: nat) -> char {
    if d == 0 {
        '0'
    } else if d == 1 {
        '1'
    } else if d == 2 {
        '2'
    } else if d == 3 {
        '3'
    } else if d == 4 {
        '4'
    } else if d == 5 {
        '5'
    } else if d == 6 {
        '6'
    } else if d == 7 {
        '7'
    } else if d == 8 {
        '8'
    } else {
        '9'
    }
}

/// The decimal form of `n`, without leading zeros.
pub open spec fn decimal(n: nat) -> Seq<char>
    decreases n,
{
    if n < 10 {
        seq![digit_char(n)]
    } else {
        decimal(n / 10).push(digit_char(n % 10))
    }
}

fn digit_str(d: u64) -> (r: &'static str)
    requires
        d < 10,
    ensures
        r@ == seq![digit_char(d as nat)],
{
    proof {
        reveal_strlit("0");
        reveal_strlit("1");
        reveal_strlit("2");
        reveal_strlit("3");
        reveal_strlit("4");
        reveal_strlit("5");
        reveal_strlit("6");
        reveal_strlit("7");
        reveal_strlit("8");
        reveal_strlit("9");
    }
    let r = if d == 0 {
        "0"
    } else if d == 1 {
        "1"
    } else if d == 2 {
        "2"
    } else if d == 3 {
        "3"
    } else if d == 4 {
        "4"
    } else if d == 5 {
        "5"
    } else if d == 6 {
        "6"
    } else if d == 7 {
        "7"
    } else if d == 8 {
        "8"
    } else {
        "9"
    };
    assert(r@ =~= seq![digit_char(d as nat)]);
    r
}

/// The decimal form of `n`.
pub fn decimal_string(n: u64) -> (r: String)
    ensures
        r@ == decimal(n as nat),
    decreases n,
{
    if n < 10 {
        String::from_str(digit_str(n))
    } else {
        let mut s = decimal_string(n / 10);
        s.append(digit_str(n % 10));
        assert(s@ =~= decimal((n / 10) as nat).push(digit_char((n % 10) as nat)));
        s
    }
}


/// The JSON member `"KEY":` that opens a field.
pub open spec fn key_json(k: Seq<char>) -> Seq<char> {
    seq!['"'] + k + seq!['"', ':']
}

/// The opening of a node's JSON object: `FULL_PATH` always; `ACCESS`, `TYPE` and `VALUE`
/// only when present.
pub open spec fn node_head_json(n: OscNode) -> Seq<char> {
    seq!['{'] + key_json(seq!['F', 'U', 'L', 'L', '_', 'P', 'A', 'T', 'H']) + json_quoted(
        n.full_path@,
    ) + match n.access {
        Some(a) => seq![','] + key_json(seq!['A', 'C', 'C', 'E', 'S', 'S']) + decimal(
            a.spec_code() as nat,
        ),
        None => Seq::empty(),
    } + match n.typetag {
        Some(t) => seq![','] + key_json(seq!['T', 'Y', 'P', 'E']) + json_quoted(t@),
        None => Seq::empty(),
    } + match n.value {
        Some(v) => seq![','] + key_json(seq!['V', 'A', 'L', 'U', 'E']) + v@,
        None => Seq::empty(),
    }
}

/// The JSON text of a namespace node: its head, then `CONTENTS` only when the node has
/// children.
pub open spec fn node_json(n: OscNode) -> Seq<char>
    decreases n, n.contents@.len() + 1,
{
    node_head_json(n) + if n.contents@.len() == 0 {
        Seq::empty()
    } else {
        seq![','] + key_json(seq!['C', 'O', 'N', 'T', 'E', 'N', 'T', 'S']) + seq!['{']
            + contents_json(n, n.contents@.len() as int) + seq!['}']
    } + seq!['}']
}

/// The first `k` children of `n` as JSON object members, separated by commas.
pub open spec fn contents_json(n: OscNode, k: int) -> Seq<char>
    decreases n, k,
{
    if k <= 0 || k > n.contents@.len() {
        Seq::empty()
    } else {
        let e = n.contents@[k - 1];
        (if k == 1 {
            Seq::empty()
        } else {
            contents_json(n, k - 1) + seq![',']
        }) + json_quoted(e.0@) + seq![':'] + node_json(e.1)
    }
}

/// The opening of a node's JSON object, up to its children.
fn encode_node_head(n: &OscNode) -> (r: Result<String, serde_json::Error>)
    ensures
        r is Ok,
        r matches Ok(t) ==> t@ == node_head_json(*n),
{
    proof {
        reveal_strlit("{\"FULL_PATH\":");
        reveal_strlit(",\"ACCESS\":");
        reveal_strlit(",\"TYPE\":");
        reveal_strlit(",\"VALUE\":");
    }
    let mut out = String::from_str("{\"FULL_PATH\":");
    let path = quote_json(n.full_path.as_str())?;
    out.append(path.as_str());
    let ghost head = seq!['{'] + key_json(seq!['F', 'U', 'L', 'L', '_', 'P', 'A', 'T', 'H']) + json_quoted(n.full_path@);
    assert(out@ =~= head);
    match n.access {
        Some(a) => {
            out.append(",\"ACCESS\":");
            let code = decimal_string(a.code() as u64);
            out.append(code.as_str());
        },
        None => {},
    }
    let ghost access_part = match n.access {
        Some(a) => seq![','] + key_json(seq!['A', 'C', 'C', 'E', 'S', 'S']) + decimal(a.spec_code() as nat),
        None => Seq::<char>::empty(),
    };
    assert(out@ =~= head + access_part);
    match &n.typetag {
        Some(t) => {
            out.append(",\"TYPE\":");
            let q = quote_json(t.as_str())?;
            out.append(q.as_str());
        },
        None => {},
    }
    let ghost type_part = match &n.typetag {
        Some(t) => seq![','] + key_json(seq!['T', 'Y', 'P', 'E']) + json_quoted(t@),
        None => Seq::<char>::empty(),
    };
    assert(out@ =~= head + access_part + type_part);
    match &n.value {
        Some(v) => {
            out.append(",\"VALUE\":");
            out.append(v.as_str());
        },
        None => {},
    }
    let ghost value_part = match &n.value {
        Some(v) => seq![','] + key_json(seq!['V', 'A', 'L', 'U', 'E']) + v@,
        None => Seq::<char>::empty(),
    };
    assert(out@ =~= node_head_json(*n));
    Ok(out)
}

/// Encodes a namespace node, its children included, as JSON text.
pub fn encode_node(n: &OscNode) -> (r: Result<String, serde_json::Error>)
    ensures
        r is Ok,
        r matches Ok(t) ==> t@ == node_json(*n),
    decreases n,
{
    proof {
        reveal_strlit(",\"CONTENTS\":{");
        reveal_strlit("}");
    }
    let mut out = encode_node_head(n)?;
    let ghost before = node_head_json(*n);
    assert(out@ =~= before);
    let len = n.contents.len();
    if len > 0 {
        out.append(",\"CONTENTS\":{");
        let ghost opened = before + seq![','] + key_json(seq!['C', 'O', 'N', 'T', 'E', 'N', 'T', 'S']) + seq!['{'];
        assert(out@ =~= opened);
        let mut j: usize = 0;
        assert(contents_json(*n, 0) =~= Seq::<char>::empty());
        while j < len
            invariant
                j <= len,
                len == n.contents@.len(),
                out@ == opened + contents_json(*n, j as int),
            decreases len - j,
        {
            proof {
                reveal_strlit(",");
                reveal_strlit(":");
            }
            let ghost prev = out@;
            let ghost e = n.contents@[j as int];
            let ghost sep = if j == 0 {
                Seq::<char>::empty()
            } else {
                seq![',']
            };
            if j > 0 {
                out.append(",");
            }
            assert(out@ =~= prev + sep);
            let kq = quote_json(n.contents[j].0.as_str())?;
            out.append(kq.as_str());
            assert(out@ =~= prev + sep + json_quoted(e.0@));
            out.append(":");
            let child = encode_node(&n.contents[j].1)?;
            out.append(child.as_str());
            assert(out@ =~= prev + sep + json_quoted(e.0@) + seq![':'] + node_json(e.1));
            proof {
                let cj = contents_json(*n, j as int);
                assert(contents_json(*n, j + 1) == (if j == 0 {
                    Seq::<char>::empty()
                } else {
                    cj + seq![',']
                }) + json_quoted(e.0@) + seq![':'] + node_json(e.1));
                if j == 0 {
                    assert(cj =~= Seq::<char>::empty());
                }
                assert(out@ =~= opened + contents_json(*n, j + 1));
            }
            j = j + 1;
        }
        out.append("}");
        assert(out@ =~= opened + contents_json(*n, len as int) + seq!['}']);
    }
    out.append("}");
    assert(out@ =~= node_json(*n));
    Ok(out)
}

/// A container without children encodes as its full path and access code alone: no
/// `CONTENTS`, `TYPE` or `VALUE` member.
pub proof fn lemma_childless_container_json(n: OscNode)
    requires
        n.contents@.len() == 0,
        n.access == Some(Access::NoAccess),
        n.typetag is None,
        n.value is None,
    ensures
        node_json(n) == seq!['{'] + key_json(seq!['F', 'U', 'L', 'L', '_', 'P', 'A', 'T', 'H'])
            + json_quoted(n.full_path@) + seq![','] + key_json(seq!['A', 'C', 'C', 'E', 'S', 'S'])
            + seq!['0', '}'],
{
    assert(decimal(0) == seq!['0']);
    assert(node_json(n) =~= seq!['{'] + key_json(seq!['F', 'U', 'L', 'L', '_', 'P', 'A', 'T', 'H'])
        + json_quoted(n.full_path@) + seq![','] + key_json(seq!['A', 'C', 'C', 'E', 'S', 'S'])
        + seq!['0', '}']);
}

} // verus!
