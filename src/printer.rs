use vstd::prelude::*;
use vstd::string::*;
use vstd::utf8::{decode_utf8, encode_utf8, valid_utf8};
use crate::args::{Args, ColorMode, EscapeMode};
use crate::env::{block_of, lemma_block_of_push, Env, EQUALS_SIGN};
use crate::error::AppError;
use crate::platform_ext::{bytes_text, hex_digit, push_char, u8_vec_to_string};

verus! {

/// Whether `c` is a control character: Unicode's category Cc, which is
/// U+0000 to U+001F and U+007F to U+009F.
pub open spec fn is_control(c: char) -> bool {
    (c as u32) <= 0x1f || (0x7f <= (c as u32) && (c as u32) <= 0x9f)
}

/// The `\u{NNNN}` form of `c` that `char::escape_default` writes for
/// characters it has no shorter escape for.
pub uninterp spec fn unicode_escape(c: char) -> Seq<char>;

/// How `char::escape_default` writes `c`.
pub open spec fn char_escape(c: char) -> Seq<char> {
    if c == '\t' {
        seq!['\\', 't']
    } else if c == '\r' {
        seq!['\\', 'r']
    } else if c == '\n' {
        seq!['\\', 'n']
    } else if c == '\'' {
        seq!['\\', '\'']
    } else if c == '"' {
        seq!['\\', '"']
    } else if c == '\\' {
        seq!['\\', '\\']
    } else if 0x20 <= (c as u32) && (c as u32) <= 0x7e {
        seq![c]
    } else {
        unicode_escape(c)
    }
}

/// `s` with each control character replaced by its escape.
pub open spec fn escape_text(s: Seq<char>) -> Seq<char>
    decreases s.len(),
{
    if s.len() == 0 {
        seq![]
    } else {
        escape_text(s.drop_last()) + if is_control(s.last()) {
            char_escape(s.last())
        } else {
            seq![s.last()]
        }
    }
}

/// How JSON writes one character inside a string literal.
pub open spec fn json_char(c: char) -> Seq<char> {
    if c == '"' {
        seq!['\\', '"']
    } else if c == '\\' {
        seq!['\\', '\\']
    } else if (c as u32) == 0x08 {
        seq!['\\', 'b']
    } else if c == '\t' {
        seq!['\\', 't']
    } else if c == '\n' {
        seq!['\\', 'n']
    } else if (c as u32) == 0x0c {
        seq!['\\', 'f']
    } else if c == '\r' {
        seq!['\\', 'r']
    } else if (c as u32) < 0x20 {
        seq!['\\', 'u', '0', '0', hex_digit((c as u32 / 16) as u8), hex_digit((c as u32 % 16) as u8)]
    } else {
        seq![c]
    }
}

/// The characters of `s` as they stand inside a JSON string literal.
pub open spec fn json_chars(s: Seq<char>) -> Seq<char>
    decreases s.len(),
{
    if s.len() == 0 {
        seq![]
    } else {
        json_chars(s.drop_last()) + json_char(s.last())
    }
}

/// The JSON string literal of `s`.
pub open spec fn json_quoted(s: Seq<char>) -> Seq<char> {
    seq!['"'] + json_chars(s) + seq!['"']
}

/// One `"key":"value"` member of the JSON object.
pub open spec fn json_member(r: (Seq<u8>, Seq<u8>)) -> Seq<char> {
    json_quoted(bytes_text(r.0)) + seq![':'] + json_quoted(bytes_text(r.1))
}

/// The members of the JSON object, parted by commas.
pub open spec fn json_members(e: Seq<(Seq<u8>, Seq<u8>)>) -> Seq<char>
    decreases e.len(),
{
    if e.len() == 0 {
        seq![]
    } else if e.len() == 1 {
        json_member(e[0])
    } else {
        json_members(e.drop_last()) + seq![','] + json_member(e.last())
    }
}

/// The environment as one JSON object, its members in the records' order.
pub open spec fn json_text(e: Seq<(Seq<u8>, Seq<u8>)>) -> Seq<char> {
    seq!['{'] + json_members(e) + seq!['}']
}

/// How a key or value is shown: its text, with control characters escaped
/// where `escape` asks for it and the bytes are UTF-8.
pub open spec fn field_text(escape: EscapeMode, b: Seq<u8>) -> Seq<char> {
    if valid_utf8(b) && escape == EscapeMode::Yes {
        escape_text(decode_utf8(b))
    } else {
        bytes_text(b)
    }
}

/// The character that ends each record.
pub open spec fn separator(null: bool) -> char {
    if null {
        '\0'
    } else {
        '\n'
    }
}

/// One record as plain text: `KEY=VALUE`, or only `VALUE` without keys, and
/// the separator.
pub open spec fn record_text(p: Printer, r: (Seq<u8>, Seq<u8>)) -> Seq<char> {
    (if p.include_keys {
        field_text(p.escape, r.0) + seq!['=']
    } else {
        seq![]
    }) + field_text(p.escape, r.1) + seq![separator(p.null)]
}

/// All records as plain text, in order.
pub open spec fn plain_text(p: Printer, e: Seq<(Seq<u8>, Seq<u8>)>) -> Seq<char>
    decreases e.len(),
{
    if e.len() == 0 {
        seq![]
    } else {
        plain_text(p, e.drop_last()) + record_text(p, e.last())
    }
}

/// The printer that writes an environment block: records ended by NUL,
/// with keys, no color, no escapes.
pub open spec fn block_printer(p: Printer) -> bool {
    p.null && !p.json && p.color == ColorMode::Never && p.escape == EscapeMode::No && p.include_keys
}

/// Whether every key and value of `e` is UTF-8.
pub open spec fn utf8_records(e: Seq<(Seq<u8>, Seq<u8>)>) -> bool {
    forall|i: int| 0 <= i < e.len() ==> valid_utf8(#[trigger] e[i].0) && valid_utf8(e[i].1)
}

proof fn lemma_encode_concat(a: Seq<char>, b: Seq<char>)
    ensures
        encode_utf8(a + b) == encode_utf8(a) + encode_utf8(b),
    decreases a.len(),
{
    if a.len() == 0 {
        assert(a + b =~= b);
    } else {
        lemma_encode_concat(a.drop_first(), b);
        assert((a + b).drop_first() =~= a.drop_first() + b);
        assert((a + b)[0] == a[0]);
    }
}

proof fn lemma_encode_ascii(c: char)
    requires
        (c as u32) < 0x80,
    ensures
        encode_utf8(seq![c]) == seq![c as u32 as u8],
{
    let v = c as u32;
    assert((v & 0x7f) == v) by (bit_vector)
        requires
            v < 0x80,
    ;
    assert(seq![c].drop_first() =~= Seq::<char>::empty());
    assert(seq![c][0] == c);
    assert(encode_utf8(Seq::<char>::empty()) =~= Seq::<u8>::empty());
    assert(vstd::utf8::has_width_1_encoding(v));
    assert(vstd::utf8::encode_scalar(v) == seq![(v & 0x7f) as u8]);
    assert(encode_utf8(seq![c]) =~= seq![c as u32 as u8]);
}

/// Where keys and values are UTF-8, a printer set to write NUL-ended
/// `KEY=VALUE` records with no color and no escapes writes exactly the
/// environment block of the records.
pub proof fn lemma_block_printer_writes_block(p: Printer, e: Seq<(Seq<u8>, Seq<u8>)>)
    requires
        block_printer(p),
        utf8_records(e),
    ensures
        encode_utf8(plain_text(p, e)) == block_of(e),
    decreases e.len(),
{
    if e.len() == 0 {
        assert(block_of(e) =~= seq![]);
    } else {
        let init = e.drop_last();
        let (k, v) = e.last();
        assert(utf8_records(init)) by {
            assert forall|i: int| 0 <= i < init.len() implies valid_utf8(#[trigger] init[i].0)
                && valid_utf8(init[i].1) by {
                assert(init[i] == e[i]);
            }
        }
        assert(valid_utf8(e[e.len() - 1].0) && valid_utf8(e[e.len() - 1].1));
        lemma_block_printer_writes_block(p, init);
        let kt = decode_utf8(k);
        let vt = decode_utf8(v);
        vstd::utf8::decode_utf8_encode_utf8(k);
        vstd::utf8::decode_utf8_encode_utf8(v);
        assert(record_text(p, e.last()) == kt + seq!['='] + vt + seq!['\0']);
        lemma_encode_concat(plain_text(p, init), record_text(p, e.last()));
        lemma_encode_concat(kt + seq!['='] + vt, seq!['\0']);
        lemma_encode_concat(kt + seq!['='], vt);
        lemma_encode_concat(kt, seq!['=']);
        lemma_encode_ascii('=');
        lemma_encode_ascii('\0');
        lemma_block_of_push(init, e.last());
        assert(init.push(e.last()) =~= e);
    }
}

/// The shown text of a key and a value.
pub open spec fn shown(f: (String, String)) -> (Seq<char>, Seq<char>) {
    (f.0@, f.1@)
}

/// A record's key and value as shown without color.
pub open spec fn plain_fields(p: Printer, r: (Seq<u8>, Seq<u8>)) -> (Seq<char>, Seq<char>) {
    (if p.include_keys {
        field_text(p.escape, r.0)
    } else {
        seq![]
    }, field_text(p.escape, r.1))
}

/// One record laid out from its shown key and value.
pub open spec fn layout_record(p: Printer, f: (Seq<char>, Seq<char>), equal_sign: Seq<char>) -> Seq<
    char,
> {
    (if p.include_keys {
        f.0 + equal_sign
    } else {
        seq![]
    }) + f.1 + seq![separator(p.null)]
}

/// All records laid out from their shown keys and values, in order.
pub open spec fn layout_text(
    p: Printer,
    fields: Seq<(Seq<char>, Seq<char>)>,
    equal_sign: Seq<char>,
) -> Seq<char>
    decreases fields.len(),
{
    if fields.len() == 0 {
        seq![]
    } else {
        layout_text(p, fields.drop_last(), equal_sign) + layout_record(p, fields.last(), equal_sign)
    }
}

proof fn lemma_layout_plain(
    p: Printer,
    e: Seq<(Seq<u8>, Seq<u8>)>,
    fields: Seq<(Seq<char>, Seq<char>)>,
)
    requires
        fields.len() == e.len(),
        forall|j: int| 0 <= j < fields.len() ==> #[trigger] fields[j] == plain_fields(p, e[j]),
    ensures
        layout_text(p, fields, seq!['=']) == plain_text(p, e),
    decreases e.len(),
{
    if e.len() > 0 {
        let fi = fields.drop_last();
        let ei = e.drop_last();
        assert forall|j: int| 0 <= j < fi.len() implies #[trigger] fi[j] == plain_fields(p, ei[j]) by {
            assert(fi[j] == fields[j] && ei[j] == e[j]);
        }
        lemma_layout_plain(p, ei, fi);
        assert(fields.last() == plain_fields(p, e.last()));
        assert(layout_record(p, fields.last(), seq!['=']) =~= record_text(p, e.last()));
    }
}

/// Relies on `char::is_control`: true exactly for category Cc.
#[verifier::external_body]
fn control_char(c: char) -> (r: bool)
    ensures
        r == is_control(c),
{
    c.is_control()
}

/// Relies on `char::escape_default`, whose rules its documentation lists.
#[verifier::external_body]
fn escape_char(c: char) -> (r: String)
    ensures
        r@ == char_escape(c),
        is_control(c) && c != '\t' && c != '\r' && c != '\n' ==> r@ == unicode_escape(c),
{
    c.escape_default().collect()
}

/// Relies on `str::chars`: the characters of `s` in order.
#[verifier::external_body]
fn chars_of(s: &str) -> (r: Vec<char>)
    ensures
        r@ == s@,
{
    s.chars().collect()
}

/// Relies on `serde_json::to_string` on a string: the JSON string literal,
/// quoted, with `"`, `\` and the characters below U+0020 escaped.
#[verifier::external_body]
fn json_string(s: &str) -> (r: Option<String>)
    ensures
        r matches Some(t) ==> t@ == json_quoted(s@),
{
    serde_json::to_string(s).ok()
}

/// Relies on `colored::Colorize::yellow` and the colored string's `Display`.
/// Whether color codes are written depends on colored's process-wide state
/// (its override, the terminal, the environment), so nothing is stated.
#[verifier::external_body]
fn paint_yellow(s: &str) -> String {
    colored::Colorize::yellow(s).to_string()
}

/// Relies on `colored::Colorize::bright_white`; see `paint_yellow`.
#[verifier::external_body]
fn paint_bright_white(s: &str) -> String {
    colored::Colorize::bright_white(s).to_string()
}

/// Relies on `colored::Colorize::red`; see `paint_yellow`.
#[verifier::external_body]
fn paint_red(s: &str) -> String {
    colored::Colorize::red(s).to_string()
}

/// Relies on `colored::Colorize::white`; see `paint_yellow`.
#[verifier::external_body]
fn paint_white(s: &str) -> String {
    colored::Colorize::white(s).to_string()
}

/// The text of `bytes`, decoded or escaped.
fn text_of(bytes: &[u8]) -> (r: String)
    ensures
        r@ == bytes_text(bytes@),
{
    match u8_vec_to_string(bytes) {
        Ok(s) => s,
        Err(s) => s,
    }
}

/// Which part of a record is being shown.
enum FormatField {
    Key,
    Value,
}

/// How an environment is written out.
pub struct Printer {
    /// End records with NUL instead of a line break.
    pub null: bool,
    /// Write one JSON object.
    pub json: bool,
    /// When to color keys and values.
    pub color: ColorMode,
    /// Whether control characters are escaped.
    pub escape: EscapeMode,
    /// Whether `KEY=` comes before each value.
    pub include_keys: bool,
}

impl Default for Printer {
    fn default() -> (r: Printer)
        ensures
            !r.null,
            !r.json,
            r.color == ColorMode::Auto,
            r.escape == EscapeMode::No,
            r.include_keys,
    {
        Printer {
            null: false,
            json: false,
            color: ColorMode::Auto,
            escape: EscapeMode::No,
            include_keys: true,
        }
    }
}

impl Printer {
    /// The printer that the options ask for.
    pub fn for_args(args: &Args) -> (r: Printer)
        ensures
            r.null == args.null,
            r.json == args.json,
            r.color == args.color,
            r.escape == match args.escape {
                Some(e) => e,
                None => EscapeMode::No,
            },
            r.include_keys == (args.variables@.len() == 0),
    {
        let mut printer = Printer::default();
        printer.null = args.null;
        printer.json = args.json;
        printer.include_keys = args.variables.len() == 0;
        printer.color = args.color;
        if let Some(escape) = args.escape {
            printer.escape = escape;
        }
        printer
    }

    /// `string` with each control character replaced by its escape.
    pub fn escape(string: &str) -> (r: String)
        ensures
            r@ == escape_text(string@),
    {
        let chars = chars_of(string);
        let mut out = String::new();
        let mut i: usize = 0;
        while i < chars.len()
            invariant
                chars@ == string@,
                i <= chars@.len(),
                out@ == escape_text(chars@.take(i as int)),
            decreases chars@.len() - i,
        {
            let c = chars[i];
            assert(chars@.take(i + 1).drop_last() =~= chars@.take(i as int));
            if control_char(c) {
                let piece = escape_char(c);
                out.append(piece.as_str());
            } else {
                push_char(&mut out, c);
            }
            i += 1;
        }
        assert(chars@.take(i as int) =~= chars@);
        out
    }

    /// One key or value as shown, colored unless colors are off.
    fn format(&self, bytes: &[u8], field: FormatField) -> (r: String)
        ensures
            self.color == ColorMode::Never ==> r@ == field_text(self.escape, bytes@),
    {
        match u8_vec_to_string(bytes) {
            Ok(string) => {
                let string = if self.escape == EscapeMode::No {
                    string
                } else {
                    Self::escape(string.as_str())
                };
                if self.color == ColorMode::Never {
                    string
                } else {
                    match field {
                        FormatField::Key => paint_yellow(string.as_str()),
                        FormatField::Value => paint_bright_white(string.as_str()),
                    }
                }
            },
            Err(string) => {
                if self.color == ColorMode::Never {
                    string
                } else {
                    paint_red(string.as_str())
                }
            },
        }
    }

    /// The environment as one JSON object.
    fn print_json(env: &Env) -> (r: Result<Vec<u8>, AppError>)
        ensures
            match r {
                Ok(out) => out@ == encode_utf8(json_text(env@)),
                Err(e) => e == AppError::SerdeJson,
            },
    {
        let mut out = String::new();
        push_char(&mut out, '{');
        let mut i: usize = 0;
        while i < env.0.len()
            invariant
                i <= env@.len(),
                out@ == seq!['{'] + json_members(env@.take(i as int)),
            decreases env@.len() - i,
        {
            let record = &env.0[i];
            assert(env@[i as int] == record@);
            assert(env@.take(i + 1).drop_last() =~= env@.take(i as int));
            if i > 0 {
                push_char(&mut out, ',');
            }
            let key = match json_string(text_of(record.0.as_slice()).as_str()) {
                Some(k) => k,
                None => return Err(AppError::SerdeJson),
            };
            out.append(key.as_str());
            push_char(&mut out, ':');
            let value = match json_string(text_of(record.1.as_slice()).as_str()) {
                Some(v) => v,
                None => return Err(AppError::SerdeJson),
            };
            out.append(value.as_str());
            proof {
                let prefix = env@.take(i as int);
                let next = env@.take(i + 1);
                assert(next.last() == record@);
                if i == 0 {
                    assert(prefix =~= seq![]);
                    assert(json_members(next) == json_member(record@));
                } else {
                    assert(json_members(next) == json_members(prefix) + seq![','] + json_member(
                        record@,
                    ));
                }
                assert(out@ =~= seq!['{'] + json_members(next));
            }
            i += 1;
        }
        push_char(&mut out, '}');
        assert(env@.take(i as int) =~= env@);
        assert(out@ =~= json_text(env@));
        Ok(out.as_str().as_bytes_vec())
    }

    /// Writes the environment out as this printer is set.
    pub fn print(&self, env: &Env) -> (r: Result<Vec<u8>, AppError>)
        ensures
            self.json ==> match r {
                Ok(out) => out@ == encode_utf8(json_text(env@)),
                Err(e) => e == AppError::SerdeJson,
            },
            !self.json ==> (r matches Ok(out) && exists|
                fields: Seq<(Seq<char>, Seq<char>)>,
                equal_sign: Seq<char>,
            |
                fields.len() == env@.len() && out@ == encode_utf8(
                    layout_text(*self, fields, equal_sign),
                )),
            !self.json && self.color == ColorMode::Never ==> (r matches Ok(out) && out@
                == encode_utf8(plain_text(*self, env@))),
    {
        if self.json {
            return Self::print_json(env);
        }
        let mut fields: Vec<(String, String)> = Vec::new();
        let mut i: usize = 0;
        while i < env.0.len()
            invariant
                i <= env@.len(),
                fields@.len() == i,
                self.color == ColorMode::Never ==> forall|j: int|
                    0 <= j < i ==> #[trigger] shown(fields@[j]) == plain_fields(*self, env@[j]),
            decreases env@.len() - i,
        {
            let record = &env.0[i];
            assert(env@[i as int] == record@);
            let key = if self.include_keys {
                self.format(record.0.as_slice(), FormatField::Key)
            } else {
                String::new()
            };
            let value = self.format(record.1.as_slice(), FormatField::Value);
            fields.push((key, value));
            i += 1;
        }
        let mut equal_sign = String::new();
        if self.color == ColorMode::Never {
            push_char(&mut equal_sign, '=');
        } else {
            equal_sign = paint_white("=");
        }
        let out = self.layout(&fields, equal_sign.as_str());
        proof {
            let all = fields@.map_values(|f: (String, String)| shown(f));
            assert(all.len() == env@.len());
            assert(out@ == encode_utf8(layout_text(*self, all, equal_sign@)));
            if self.color == ColorMode::Never {
                let all = fields@.map_values(|f: (String, String)| shown(f));
                assert forall|j: int| 0 <= j < all.len() implies #[trigger] all[j] == plain_fields(
                    *self,
                    env@[j],
                ) by {
                    assert(all[j] == shown(fields@[j]));
                }
                lemma_layout_plain(*self, env@, all);
            }
        }
        Ok(out)
    }

    /// Lays out shown keys and values: `KEY`, the equal sign and `VALUE`
    /// for each record, or only `VALUE` where keys are left out, and the
    /// separator.
    pub fn layout(&self, fields: &Vec<(String, String)>, equal_sign: &str) -> (r: Vec<u8>)
        ensures
            r@ == encode_utf8(
                layout_text(*self, fields@.map_values(|f: (String, String)| shown(f)), equal_sign@),
            ),
    {
        let ghost all = fields@.map_values(|f: (String, String)| shown(f));
        let mut out = String::new();
        let mut i: usize = 0;
        while i < fields.len()
            invariant
                i <= fields@.len(),
                all == fields@.map_values(|f: (String, String)| shown(f)),
                out@ == layout_text(*self, all.take(i as int), equal_sign@),
            decreases fields@.len() - i,
        {
            let field = &fields[i];
            assert(all[i as int] == shown(*field));
            assert(all.take(i + 1).drop_last() =~= all.take(i as int));
            let ghost before = out@;
            if self.include_keys {
                out.append(field.0.as_str());
                out.append(equal_sign);
            }
            out.append(field.1.as_str());
            if self.null {
                push_char(&mut out, '\0');
            } else {
                push_char(&mut out, '\n');
            }
            assert(out@ =~= before + layout_record(*self, all[i as int], equal_sign@));
            i += 1;
        }
        assert(all.take(i as int) =~= all);
        out.as_str().as_bytes_vec()
    }
}

} // verus!
