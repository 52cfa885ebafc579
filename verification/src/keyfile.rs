use vstd::prelude::*;

use crate::codec::{
    base64_decoding, base64_encoding, decode_base64, encode_key, is_base64_symbol,
    is_key_text, key_array, random_in_range, random_secret,
};
use crate::text::{
    chars_of, decimal_chars, decimal_text, lemma_decimal_text_digits, is_space, lemma_parse_decimal_u16,
    lemma_split_on_nonempty, parse_u16, parse_u16_chars, split_chars, split_on, starts_with,
    starts_with_chars, string_of, trim, trim_chars, trim_end, trim_start,
};

verus! {

/// What the key file of an interface holds, as far as it was read.
#[derive(Clone, Copy, Debug, PartialEq, Eq)]
pub struct StoredKeys {
    pub private_key: Option<[u8; 32]>,
    pub listen_port: Option<u16>,
}

/// Why a key file was refused.
#[derive(Clone, Copy, Debug, PartialEq, Eq, Structural)]
pub enum KeyFileError {
    /// A `PrivateKey` value that is not base64.
    BadPrivateKey,
    /// A `ListenPort` value that is not a 16-bit number.
    BadListenPort,
}

/// The private key (as bytes) and listen port read so far.
pub type KeyScan = (Option<Seq<u8>>, Option<u16>);

impl StoredKeys {
    pub open spec fn scan(self) -> KeyScan {
        (
            match self.private_key {
                Some(k) => Some(k@),
                None => None,
            },
            self.listen_port,
        )
    }

    /// The key and port, where the file gave both.
    pub fn usable(&self) -> (r: Option<([u8; 32], u16)>)
        ensures
            r == match (self.private_key, self.listen_port) {
                (Some(k), Some(p)) => Some((k, p)),
                _ => None,
            },
    {
        match (self.private_key, self.listen_port) {
            (Some(k), Some(p)) => Some((k, p)),
            _ => None,
        }
    }
}

/// The text between the first and the second `=` of `line` (or its end), as
/// `line.split('=').nth(1)` gives it.
pub open spec fn key_field(line: Seq<char>) -> Option<Seq<char>> {
    let p = split_on(line, '=');
    if p.len() >= 2 {
        Some(p[1])
    } else {
        None
    }
}

/// The effect of one line of a key file. A `PrivateKey` line sets the key
/// where its value decodes to 32 bytes (the value lost its `=` padding to the
/// split, so one is put back before decoding); a `ListenPort` line sets the
/// port. Other lines change nothing.
pub open spec fn scan_key_line(acc: KeyScan, line: Seq<char>) -> Result<KeyScan, KeyFileError> {
    let t = trim(line);
    if starts_with(t, "PrivateKey"@) {
        match key_field(t) {
            None => Ok(acc),
            Some(f) => match base64_decoding(trim(f).push('=')) {
                None => Err(KeyFileError::BadPrivateKey),
                Some(b) => if b.len() == 32 {
                    Ok((Some(b), acc.1))
                } else {
                    Ok(acc)
                },
            },
        }
    } else if starts_with(t, "ListenPort"@) {
        match key_field(t) {
            None => Ok(acc),
            Some(f) => match parse_u16(trim(f)) {
                None => Err(KeyFileError::BadListenPort),
                Some(p) => Ok((acc.0, Some(p))),
            },
        }
    } else {
        Ok(acc)
    }
}

/// The lines of a key file, read in order; the first refused line ends it.
pub open spec fn scan_key_lines(lines: Seq<Seq<char>>) -> Result<KeyScan, KeyFileError>
    decreases lines.len(),
{
    if lines.len() == 0 {
        Ok((None, None))
    } else {
        match scan_key_lines(lines.drop_last()) {
            Err(e) => Err(e),
            Ok(acc) => scan_key_line(acc, lines.last()),
        }
    }
}

/// What a key file with the text `content` gives.
pub open spec fn read_key_file(content: Seq<char>) -> Result<KeyScan, KeyFileError> {
    scan_key_lines(split_on(content, '\n'))
}

/// The key file written for a key whose base64 text is `encoded`.
pub open spec fn key_file_text(encoded: Seq<char>, port: u16) -> Seq<char> {
    "[Interface]"@ + seq!['\n'] + "PrivateKey = "@ + encoded + seq!['\n'] + "ListenPort = "@
        + decimal_text(port as nat) + seq!['\n']
}

fn scan_line(
    acc: StoredKeys,
    line: &Vec<char>,
    private_label: &Vec<char>,
    port_label: &Vec<char>,
) -> (r: Result<StoredKeys, KeyFileError>)
    requires
        private_label@ == "PrivateKey"@,
        port_label@ == "ListenPort"@,
    ensures
        match scan_key_line(acc.scan(), line@) {
            Ok(v) => r is Ok && r->Ok_0.scan() == v,
            Err(e) => r == Err::<StoredKeys, KeyFileError>(e),
        },
{
    let t = trim_chars(line);
    if starts_with_chars(&t, private_label) {
        let parts = split_chars(&t, '=');
        if parts.len() < 2 {
            return Ok(acc);
        }
        let mut text = trim_chars(&parts[1]);
        text.push('=');
        match decode_base64(&text) {
            None => Err(KeyFileError::BadPrivateKey),
            Some(bytes) => {
                if bytes.len() == 32 {
                    let key = key_array(&bytes);
                    Ok(StoredKeys { private_key: Some(key), listen_port: acc.listen_port })
                } else {
                    Ok(acc)
                }
            },
        }
    } else if starts_with_chars(&t, port_label) {
        let parts = split_chars(&t, '=');
        if parts.len() < 2 {
            return Ok(acc);
        }
        let text = trim_chars(&parts[1]);
        match parse_u16_chars(&text) {
            None => Err(KeyFileError::BadListenPort),
            Some(p) => Ok(StoredKeys { private_key: acc.private_key, listen_port: Some(p) }),
        }
    } else {
        Ok(acc)
    }
}

/// Reads the key file of an interface: the private key and the listen port it
/// names, or the first line whose value cannot be read.
pub fn parse_key_file(content: &str) -> (r: Result<StoredKeys, KeyFileError>)
    ensures
        match read_key_file(content@) {
            Ok(v) => r is Ok && r->Ok_0.scan() == v,
            Err(e) => r == Err::<StoredKeys, KeyFileError>(e),
        },
{
    let chars = chars_of(content);
    let lines = split_chars(&chars, '\n');
    let private_label = chars_of("PrivateKey");
    let port_label = chars_of("ListenPort");
    let ghost all = split_on(content@, '\n');
    let mut keys = StoredKeys { private_key: None, listen_port: None };
    let mut i: usize = 0;
    assert(all.take(0) =~= Seq::<Seq<char>>::empty());
    while i < lines.len()
        invariant
            i <= lines@.len() == all.len(),
            all == split_on(content@, '\n'),
            forall|k: int| 0 <= k < lines@.len() ==> (#[trigger] lines@[k])@ == all[k],
            private_label@ == "PrivateKey"@,
            port_label@ == "ListenPort"@,
            scan_key_lines(all.take(i as int)) == Ok::<KeyScan, KeyFileError>(keys.scan()),
        decreases lines.len() - i,
    {
        proof {
            assert(all.take(i + 1).drop_last() =~= all.take(i as int));
            assert(all.take(i + 1).last() == lines@[i as int]@);
        }
        match scan_line(keys, &lines[i], &private_label, &port_label) {
            Err(e) => {
                assert(scan_key_lines(all.take(i + 1)) == Err::<KeyScan, KeyFileError>(e));
                proof {
                    lemma_scan_stays_refused(all, i + 1, e);
                }
                return Err(e);
            },
            Ok(k) => {
                keys = k;
            },
        }
        i = i + 1;
    }
    assert(all.take(all.len() as int) =~= all);
    Ok(keys)
}

proof fn lemma_scan_stays_refused(lines: Seq<Seq<char>>, n: int, e: KeyFileError)
    requires
        0 <= n <= lines.len(),
        scan_key_lines(lines.take(n)) == Err::<KeyScan, KeyFileError>(e),
    ensures
        scan_key_lines(lines) == Err::<KeyScan, KeyFileError>(e),
    decreases lines.len() - n,
{
    if n < lines.len() {
        assert(lines.take(n + 1).drop_last() =~= lines.take(n));
        lemma_scan_stays_refused(lines, n + 1, e);
    } else {
        assert(lines.take(n) =~= lines);
    }
}

proof fn lemma_split_concat(x: Seq<char>, y: Seq<char>, sep: char)
    ensures
        split_on(x + seq![sep] + y, sep) == split_on(x, sep) + split_on(y, sep),
    decreases y.len(),
{
    let s = x + seq![sep] + y;
    lemma_split_on_nonempty(x, sep);
    if y.len() == 0 {
        assert(s.drop_last() =~= x);
        assert(split_on(y, sep) =~= seq![Seq::<char>::empty()]);
        assert(split_on(s, sep) =~= split_on(x, sep) + split_on(y, sep));
    } else {
        lemma_split_concat(x, y.drop_last(), sep);
        lemma_split_on_nonempty(y.drop_last(), sep);
        assert(s.drop_last() =~= x + seq![sep] + y.drop_last());
        assert(s.last() == y.last());
        assert(split_on(s, sep) =~= split_on(x, sep) + split_on(y, sep));
    }
}

proof fn lemma_split_without_sep(x: Seq<char>, sep: char)
    requires
        forall|i: int| 0 <= i < x.len() ==> x[i] != sep,
    ensures
        split_on(x, sep) == seq![x],
    decreases x.len(),
{
    if x.len() > 0 {
        lemma_split_without_sep(x.drop_last(), sep);
        assert(x.drop_last().push(x.last()) =~= x);
        assert(split_on(x, sep) =~= seq![x]);
    } else {
        assert(x =~= Seq::<char>::empty());
    }
}

proof fn lemma_trim_unchanged(s: Seq<char>)
    requires
        s.len() > 0,
        !is_space(s[0]),
        !is_space(s.last()),
    ensures
        trim(s) == s,
{
}

proof fn lemma_trim_leading_blank(s: Seq<char>)
    requires
        s.len() > 0,
        !is_space(s[0]),
        !is_space(s.last()),
    ensures
        trim(seq![' '] + s) == s,
{
    let t = seq![' '] + s;
    assert(t.drop_first() =~= s);
    assert(is_space(t[0]));
    assert(trim_start(t) == trim_start(s));
    assert(trim_start(s) == s);
    assert(trim_end(s) == s);
}

proof fn lemma_digits_shape(port: u16)
    ensures
        decimal_text(port as nat).len() > 0,
        forall|i: int|
            0 <= i < decimal_text(port as nat).len() ==> {
                let c = #[trigger] decimal_text(port as nat)[i];
                '0' <= c && c <= '9'
            },
{
    lemma_decimal_text_digits(port as nat);
}

/// Reading back a key file written for a 32-byte key gives that key and the
/// port: the key file format keeps what is written to it.
pub proof fn lemma_key_file_round_trip(key: Seq<u8>, encoded: Seq<char>, port: u16)
    requires
        key.len() == 32,
        is_key_text(encoded),
        base64_decoding(encoded) == Some(key),
    ensures
        read_key_file(key_file_text(encoded, port)) == Ok::<KeyScan, KeyFileError>(
            (Some(key), Some(port)),
        ),
{
    reveal_strlit("[Interface]");
    reveal_strlit("PrivateKey = ");
    reveal_strlit("ListenPort = ");
    reveal_strlit("PrivateKey");
    reveal_strlit("ListenPort");
    let a = "[Interface]"@;
    let digits = decimal_text(port as nat);
    lemma_digits_shape(port);
    let b = "PrivateKey = "@ + encoded;
    let c = "ListenPort = "@ + digits;
    let e = Seq::<char>::empty();
    let content = key_file_text(encoded, port);
    assert(content =~= a + seq!['\n'] + (b + seq!['\n'] + (c + seq!['\n'] + e)));
    assert forall|i: int| 0 <= i < a.len() implies a[i] != '\n' by {}
    assert forall|i: int| 0 <= i < b.len() implies b[i] != '\n' by {
        if i >= 13 {
            assert(b[i] == encoded[i - 13]);
        }
    }
    assert forall|i: int| 0 <= i < c.len() implies c[i] != '\n' by {
        if i >= 13 {
            assert(c[i] == digits[i - 13]);
        }
    }
    lemma_split_without_sep(a, '\n');
    lemma_split_without_sep(b, '\n');
    lemma_split_without_sep(c, '\n');
    lemma_split_concat(c, e, '\n');
    lemma_split_concat(b, c + seq!['\n'] + e, '\n');
    lemma_split_concat(a, b + seq!['\n'] + (c + seq!['\n'] + e), '\n');
    let lines = split_on(content, '\n');
    assert(lines =~= seq![a, b, c, e]);
    // The header line changes nothing.
    lemma_trim_unchanged(a);
    assert(!starts_with(a, "PrivateKey"@)) by {
        assert(a.subrange(0, 10)[0] != "PrivateKey"@[0]);
    }
    assert(!starts_with(a, "ListenPort"@)) by {
        assert(a.subrange(0, 10)[0] != "ListenPort"@[0]);
    }
    let s1 = scan_key_line((None, None), a);
    assert(s1 == Ok::<KeyScan, KeyFileError>((None, None)));
    // The key line gives the key.
    let body = encoded.subrange(0, 43);
    assert(is_base64_symbol(encoded[0]));
    assert(is_base64_symbol(encoded[42]));
    lemma_trim_unchanged(b);
    assert(starts_with(b, "PrivateKey"@)) by {
        assert(b.subrange(0, 10) =~= "PrivateKey"@);
    }
    assert(b =~= "PrivateKey "@ + seq!['='] + ((seq![' '] + body) + seq!['='] + e)) by {
        reveal_strlit("PrivateKey ");
        assert(encoded =~= body.push('='));
    }
    reveal_strlit("PrivateKey ");
    assert forall|i: int| 0 <= i < "PrivateKey "@.len() implies "PrivateKey "@[i] != '=' by {}
    assert forall|i: int| 0 <= i < (seq![' '] + body).len() implies (seq![' '] + body)[i]
        != '=' by {
        if i >= 1 {
            assert((seq![' '] + body)[i] == encoded[i - 1]);
            assert(is_base64_symbol(encoded[i - 1]));
        }
    }
    lemma_split_without_sep("PrivateKey "@, '=');
    lemma_split_without_sep(seq![' '] + body, '=');
    lemma_split_concat(seq![' '] + body, e, '=');
    lemma_split_concat("PrivateKey "@, (seq![' '] + body) + seq!['='] + e, '=');
    assert(split_on(b, '=') =~= seq!["PrivateKey "@, seq![' '] + body, e]);
    assert(key_field(b) == Some(seq![' '] + body));
    assert(body[0] == encoded[0]);
    assert(body.last() == encoded[42]);
    lemma_trim_leading_blank(body);
    assert(trim(seq![' '] + body).push('=') =~= encoded);
    let s2 = scan_key_line((None, None), b);
    assert(s2 == Ok::<KeyScan, KeyFileError>((Some(key), None)));
    // The port line gives the port.
    assert(digits[0] != ' ');
    lemma_trim_unchanged(c);
    assert(!starts_with(c, "PrivateKey"@)) by {
        assert(c.subrange(0, 10)[0] != "PrivateKey"@[0]);
    }
    assert(starts_with(c, "ListenPort"@)) by {
        assert(c.subrange(0, 10) =~= "ListenPort"@);
    }
    reveal_strlit("ListenPort ");
    assert(c =~= "ListenPort "@ + seq!['='] + (seq![' '] + digits));
    assert forall|i: int| 0 <= i < "ListenPort "@.len() implies "ListenPort "@[i] != '=' by {}
    assert forall|i: int| 0 <= i < (seq![' '] + digits).len() implies (seq![' '] + digits)[i]
        != '=' by {
        if i >= 1 {
            assert((seq![' '] + digits)[i] == digits[i - 1]);
        }
    }
    lemma_split_without_sep("ListenPort "@, '=');
    lemma_split_without_sep(seq![' '] + digits, '=');
    lemma_split_concat("ListenPort "@, seq![' '] + digits, '=');
    assert(key_field(c) == Some(seq![' '] + digits));
    lemma_trim_leading_blank(digits);
    lemma_parse_decimal_u16(port);
    let s3 = scan_key_line((Some(key), None), c);
    assert(s3 == Ok::<KeyScan, KeyFileError>((Some(key), Some(port))));
    // The empty piece after the last line break changes nothing.
    assert(trim(e) =~= e);
    let s4 = scan_key_line((Some(key), Some(port)), e);
    assert(s4 == Ok::<KeyScan, KeyFileError>((Some(key), Some(port))));
    let l = seq![a, b, c, e];
    assert(l.drop_last() =~= seq![a, b, c]);
    assert(seq![a, b, c].drop_last() =~= seq![a, b]);
    assert(seq![a, b].drop_last() =~= seq![a]);
    assert(seq![a].drop_last() =~= Seq::<Seq<char>>::empty());
    assert(scan_key_lines(Seq::<Seq<char>>::empty()) == Ok::<KeyScan, KeyFileError>((None, None)));
    assert(scan_key_lines(seq![a]) == s1);
    assert(scan_key_lines(seq![a, b]) == s2);
    assert(scan_key_lines(seq![a, b, c]) == s3);
    assert(scan_key_lines(l) == s4);
}

/// The key file for `key` and `port`.
pub fn render_key_file(key: &[u8; 32], port: u16) -> (r: String)
    ensures
        r@ == key_file_text(base64_encoding(key@), port),
        read_key_file(r@) == Ok::<KeyScan, KeyFileError>((Some(key@), Some(port))),
{
    let encoded = encode_key(key);
    let digits = string_of(&decimal_chars(port));
    let mut out = "[Interface]".to_owned();
    out.append("\n");
    out.append("PrivateKey = ");
    out.append(encoded.as_str());
    out.append("\n");
    out.append("ListenPort = ");
    out.append(digits.as_str());
    out.append("\n");
    proof {
        reveal_strlit("\n");
        assert(out@ =~= key_file_text(base64_encoding(key@), port));
        lemma_key_file_round_trip(key@, encoded@, port);
    }
    out
}

/// A fresh private key, a listen port drawn from `1024..65535`, and the key
/// file that records them.
pub struct NewKeys {
    pub private_key: [u8; 32],
    pub listen_port: u16,
    pub file_text: String,
}

/// Generates a private key and a listen port for a new interface, with the
/// key file to save them in.
pub fn generate_keys() -> (r: NewKeys)
    ensures
        1024 <= r.listen_port < 65535,
        r.file_text@ == key_file_text(base64_encoding(r.private_key@), r.listen_port),
        read_key_file(r.file_text@) == Ok::<KeyScan, KeyFileError>(
            (Some(r.private_key@), Some(r.listen_port)),
        ),
{
    let private_key = random_secret();
    let listen_port = random_in_range(1024, 65535) as u16;
    let file_text = render_key_file(&private_key, listen_port);
    NewKeys { private_key, listen_port, file_text }
}


/// A `PrivateKey` line never changes the port read so far, and any other line
/// never changes the key; a line that is neither leaves both as they were.
pub proof fn lemma_key_line_touches_one_field(acc: KeyScan, line: Seq<char>)
    ensures
        scan_key_line(acc, line) matches Ok(v) ==> {
            &&& starts_with(trim(line), "PrivateKey"@) ==> v.1 == acc.1
            &&& !starts_with(trim(line), "PrivateKey"@) ==> v.0 == acc.0
            &&& !starts_with(trim(line), "PrivateKey"@) && !starts_with(trim(line), "ListenPort"@)
                ==> v == acc
        },
{
}

/// Whether a line is refused does not depend on what was read before it.
proof fn lemma_key_line_refusal(a: KeyScan, b: KeyScan, line: Seq<char>)
    ensures
        scan_key_line(a, line) is Err <==> scan_key_line(b, line) is Err,
        scan_key_line(a, line) is Err ==> scan_key_line(a, line) == scan_key_line(b, line),
{
}

/// A `PrivateKey` line and a `ListenPort` line give the same result read in
/// either order: the key file does not depend on the order of its fields.
/// (Where both lines are refused, the first refusal met is reported, so only
/// the kind of error can differ.)
pub proof fn lemma_key_lines_commute(acc: KeyScan, key_line: Seq<char>, port_line: Seq<char>)
    requires
        starts_with(trim(key_line), "PrivateKey"@),
        !starts_with(trim(port_line), "PrivateKey"@),
    ensures
        scan_key_line((None, None), key_line) is Ok || scan_key_line((None, None), port_line) is Ok
            ==> scan_key_lines(seq![key_line, port_line]) == scan_key_lines(
            seq![port_line, key_line],
        ),
        ({
            let first = match scan_key_line(acc, key_line) {
                Err(e) => Err(e),
                Ok(v) => scan_key_line(v, port_line),
            };
            let second = match scan_key_line(acc, port_line) {
                Err(e) => Err(e),
                Ok(v) => scan_key_line(v, key_line),
            };
            (first is Ok || second is Ok) ==> first == second
        }),
{
    let start: KeyScan = (None, None);
    reveal_with_fuel(scan_key_lines, 3);
    assert(seq![key_line, port_line].drop_last() =~= seq![key_line]);
    assert(seq![port_line, key_line].drop_last() =~= seq![port_line]);
    assert(seq![key_line].drop_last() =~= Seq::<Seq<char>>::empty());
    assert(seq![port_line].drop_last() =~= Seq::<Seq<char>>::empty());
    lemma_key_line_touches_one_field(acc, key_line);
    lemma_key_line_touches_one_field(acc, port_line);
    lemma_key_line_touches_one_field(start, key_line);
    lemma_key_line_touches_one_field(start, port_line);
    if let Ok(v) = scan_key_line(start, key_line) {
        lemma_key_line_refusal(v, start, port_line);
    }
    if let Ok(v) = scan_key_line(start, port_line) {
        lemma_key_line_refusal(v, start, key_line);
    }
    if let Ok(v) = scan_key_line(acc, key_line) {
        lemma_key_line_refusal(v, acc, port_line);
    }
    if let Ok(v) = scan_key_line(acc, port_line) {
        lemma_key_line_refusal(v, acc, key_line);
    }
}

} // verus!
