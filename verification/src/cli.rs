//! The command-line client's own rules: which addresses and transaction identifiers it
//! accepts, the query parameters it sends, and when it stops watching a transaction.
use vstd::prelude::*;
use vstd::string::StringSliceAdditionalSpecFns;
use crate::gateway::{decimal_string, decimal_text};
use crate::types::{hex_decode, hex_decode_spec};

verus! {

/// The check of an address text's bytes: `0x` and 42 bytes in all, then 40 hexadecimal
/// digits.
pub open spec fn address_check(b: Seq<u8>) -> Result<(), Seq<char>> {
    if !(b.len() >= 2 && b[0] == 48 && b[1] == 120) || b.len() != 42 {
        Err("Invalid Ethereum address format"@)
    } else if hex_decode_spec(b.subrange(2, 42)) is Err {
        Err("Invalid hex characters in address"@)
    } else {
        Ok(())
    }
}

/// Checks an address given on the command line.
pub fn validate_address(address: &str) -> (r: Result<(), String>)
    ensures
        match address_check(address.spec_bytes()) {
            Ok(()) => r is Ok,
            Err(m) => r matches Err(x) && x@ == m,
        },
{
    let b = address.as_bytes();
    if !(b.len() >= 2 && b[0] == 48 && b[1] == 120) || b.len() != 42 {
        return Err(String::from_str("Invalid Ethereum address format"));
    }
    let mut rest: Vec<u8> = Vec::new();
    let mut i: usize = 2;
    while i < b.len()
        invariant
            2 <= i <= b@.len(),
            b@.len() == 42,
            rest@ == b@.subrange(2, i as int),
        decreases b@.len() - i,
    {
        rest.push(b[i]);
        i = i + 1;
        assert(rest@ =~= b@.subrange(2, i as int));
    }
    match hex_decode(rest.as_slice()) {
        Ok(_) => Ok(()),
        Err(_) => Err(String::from_str("Invalid hex characters in address")),
    }
}

/// Whether `uuid::Uuid::parse_str` accepts the text.
pub uninterp spec fn uuid_parses(s: Seq<char>) -> bool;

/// `uuid::Uuid::parse_str(s).is_ok()`. Stated: the answer is the named `uuid_parses` of
/// the text.
#[verifier::external_body]
fn uuid_parse_ok(s: &str) -> (r: bool)
    ensures
        r == uuid_parses(s@),
{
    uuid::Uuid::parse_str(s).is_ok()
}

/// Checks a transaction identifier given on the command line: it must be a UUID.
pub fn validate_transaction_id(id: &str) -> (r: Result<(), String>)
    ensures
        uuid_parses(id@) ==> r is Ok,
        !uuid_parses(id@) ==> (r matches Err(m) && m@ == "Invalid transaction ID format (must be UUID)"@),
{
    if !uuid_parse_ok(id) {
        return Err(String::from_str("Invalid transaction ID format (must be UUID)"));
    }
    Ok(())
}

/// Query parameters as texts.
pub open spec fn param_views(v: Seq<(String, String)>) -> Seq<(Seq<char>, Seq<char>)> {
    Seq::new(v.len(), |i: int| (v[i].0@, v[i].1@))
}

/// The query of a transaction listing: limit and offset, then status and chain where given.
pub fn list_params(limit: u32, offset: u32, status: Option<String>, chain_id: Option<u64>) -> (r: Vec<(String, String)>)
    ensures
        param_views(r@) == seq![("limit"@, decimal_text(limit as nat)), ("offset"@, decimal_text(offset as nat))]
            + match status {
            Some(s) => seq![("status"@, s@)],
            None => Seq::empty(),
        } + match chain_id {
            Some(c) => seq![("chain_id"@, decimal_text(c as nat))],
            None => Seq::empty(),
        },
{
    let mut r: Vec<(String, String)> = Vec::new();
    r.push((String::from_str("limit"), decimal_string(limit as u64)));
    r.push((String::from_str("offset"), decimal_string(offset as u64)));
    let ghost a = param_views(r@);
    match status {
        Some(s) => r.push((String::from_str("status"), s)),
        None => {},
    }
    let ghost b = param_views(r@);
    assert(b =~= a + match status {
        Some(s) => seq![("status"@, s@)],
        None => Seq::empty(),
    });
    match chain_id {
        Some(c) => r.push((String::from_str("chain_id"), decimal_string(c))),
        None => {},
    }
    assert(param_views(r@) =~= b + match chain_id {
        Some(c) => seq![("chain_id"@, decimal_text(c as nat))],
        None => Seq::empty(),
    });
    r
}

/// The query of the MEV analytics: the time frame, then the chain where given.
pub fn mev_analytics_params(timeframe: String, chain_id: Option<u64>) -> (r: Vec<(String, String)>)
    ensures
        param_views(r@) == seq![("timeframe"@, timeframe@)] + match chain_id {
            Some(c) => seq![("chain_id"@, decimal_text(c as nat))],
            None => Seq::empty(),
        },
{
    let mut r: Vec<(String, String)> = Vec::new();
    r.push((String::from_str("timeframe"), timeframe));
    let ghost a = param_views(r@);
    match chain_id {
        Some(c) => r.push((String::from_str("chain_id"), decimal_string(c))),
        None => {},
    }
    assert(param_views(r@) =~= a + match chain_id {
        Some(c) => seq![("chain_id"@, decimal_text(c as nat))],
        None => Seq::empty(),
    });
    r
}

/// A transaction status after which watching stops.
pub fn is_final_status(status: &str) -> (r: bool)
    ensures
        r == (status@ == "executed"@ || status@ == "failed"@),
{
    let s = crate::text::chars_of(status);
    crate::text::vec_eq(&s, &crate::text::chars_of("executed")) || crate::text::vec_eq(
        &s,
        &crate::text::chars_of("failed"),
    )
}

/// A time lock given in seconds as the request states it (`<seconds>s`).
pub fn time_lock_text(seconds: u64) -> (r: String)
    ensures
        r@ == decimal_text(seconds as nat) + "s"@,
{
    let mut r = decimal_string(seconds);
    r.append("s");
    r
}

/// A key padded with spaces to 20 characters; a longer key stays as it is.
pub open spec fn padded_key(k: Seq<char>) -> Seq<char> {
    if k.len() < 20 {
        k + Seq::new((20 - k.len()) as nat, |i: int| ' ')
    } else {
        k
    }
}

/// The lines of a table of (key, value) rows: the key padded to 20 characters, a space,
/// the value and a newline.
pub open spec fn table_text(rows: Seq<(Seq<char>, Seq<char>)>) -> Seq<char>
    decreases rows.len(),
{
    if rows.len() == 0 {
        Seq::empty()
    } else {
        table_text(rows.drop_last()) + padded_key(rows.last().0) + seq![' '] + rows.last().1 + seq!['\n']
    }
}

/// Appends the characters of `s`.
fn push_chars(out: &mut Vec<char>, s: &str)
    ensures
        final(out)@ == old(out)@ + s@,
{
    let cs = crate::text::chars_of(s);
    let mut i: usize = 0;
    while i < cs.len()
        invariant
            i <= cs@.len(),
            cs@ == s@,
            out@ == old(out)@ + cs@.subrange(0, i as int),
        decreases cs@.len() - i,
    {
        out.push(cs[i]);
        i = i + 1;
        assert(out@ =~= old(out)@ + cs@.subrange(0, i as int));
    }
    assert(cs@.subrange(0, cs@.len() as int) =~= cs@);
}

/// A table of (key, value) rows, one line each: the key padded to 20 characters, a space
/// and the value.
pub fn format_as_table(rows: &Vec<(String, String)>) -> (r: String)
    ensures
        r@ == table_text(crate::cors::pair_views(rows@)),
{
    let mut out: Vec<char> = Vec::new();
    let mut i: usize = 0;
    while i < rows.len()
        invariant
            i <= rows@.len(),
            out@ == table_text(crate::cors::pair_views(rows@.subrange(0, i as int))),
        decreases rows@.len() - i,
    {
        let ghost before = out@;
        let key = rows[i].0.as_str();
        let klen = key.unicode_len();
        push_chars(&mut out, key);
        let mut pad: usize = klen;
        while pad < 20
            invariant
                klen == key@.len(),
                klen <= pad <= 20 || (pad == klen && klen >= 20),
                out@ == before + key@ + Seq::new((pad - klen) as nat, |j: int| ' '),
            decreases 20 - pad,
        {
            out.push(' ');
            pad = pad + 1;
            assert(out@ =~= before + key@ + Seq::new((pad - klen) as nat, |j: int| ' '));
        }
        assert(before + key@ + Seq::new((pad - klen) as nat, |j: int| ' ') =~= before + padded_key(key@));
        out.push(' ');
        push_chars(&mut out, rows[i].1.as_str());
        out.push('\n');
        proof {
            let rs = crate::cors::pair_views(rows@.subrange(0, i + 1));
            assert(rs.drop_last() =~= crate::cors::pair_views(rows@.subrange(0, i as int)));
            assert(rs.last() == (rows@[i as int].0@, rows@[i as int].1@));
        }
        i = i + 1;
        assert(out@ =~= table_text(crate::cors::pair_views(rows@.subrange(0, i as int))));
    }
    assert(rows@.subrange(0, rows@.len() as int) =~= rows@);
    crate::text::string_from_chars(&out)
}

} // verus!
