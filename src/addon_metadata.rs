//! The metadata text of an archive: a JSON object that carries the addon's
//! title, description, type and tags.
use vstd::prelude::*;

use vstd::std_specs::iter::IteratorSpec;

use crate::error::Error;
use crate::{AddonTag, AddonType};

verus! {

/// The canonical (lower-case) name of an addon type.
pub open spec fn addon_type_name(t: AddonType) -> Seq<char> {
    match t {
        AddonType::Gamemode => "gamemode"@,
        AddonType::GameMap => "map"@,
        AddonType::Weapon => "weapon"@,
        AddonType::Vehicle => "vehicle"@,
        AddonType::NPC => "npc"@,
        AddonType::Entity => "entity"@,
        AddonType::Tool => "tool"@,
        AddonType::Effects => "effects"@,
        AddonType::Model => "model"@,
        AddonType::ServerContent => "servercontent"@,
    }
}

/// The canonical (lower-case) name of an addon tag.
pub open spec fn addon_tag_name(t: AddonTag) -> Seq<char> {
    match t {
        AddonTag::Fun => "fun"@,
        AddonTag::Roleplay => "roleplay"@,
        AddonTag::Scenic => "scenic"@,
        AddonTag::Movie => "movie"@,
        AddonTag::Realism => "realism"@,
        AddonTag::Cartoon => "cartoon"@,
        AddonTag::Water => "water"@,
        AddonTag::Comic => "comic"@,
        AddonTag::Build => "build"@,
    }
}

/// `c` with ASCII upper-case letters made lower-case.
pub open spec fn lower_char(c: char) -> char {
    if 'A' <= c <= 'Z' {
        (((c as u32) + 32) as u8) as char
    } else {
        c
    }
}

/// `s` with ASCII upper-case letters made lower-case.
pub open spec fn lower(s: Seq<char>) -> Seq<char> {
    s.map_values(|c: char| lower_char(c))
}

/// What `str::to_lowercase` makes of a string.
pub uninterp spec fn lower_of(s: Seq<char>) -> Seq<char>;

/// Relies on `str::to_lowercase`: the result depends on the characters alone.
#[verifier::external_body]
fn to_lowercase(s: &str) -> (r: String)
    ensures
        r@ == lower_of(s@),
{
    s.to_lowercase()
}

/// The addon type named by `s`, whatever the case of its ASCII letters.
pub open spec fn type_from_name(s: Seq<char>) -> Option<AddonType> {
    let l = lower(s);
    if l == addon_type_name(AddonType::Gamemode) {
        Some(AddonType::Gamemode)
    } else if l == addon_type_name(AddonType::GameMap) {
        Some(AddonType::GameMap)
    } else if l == addon_type_name(AddonType::Weapon) {
        Some(AddonType::Weapon)
    } else if l == addon_type_name(AddonType::Vehicle) {
        Some(AddonType::Vehicle)
    } else if l == addon_type_name(AddonType::NPC) {
        Some(AddonType::NPC)
    } else if l == addon_type_name(AddonType::Entity) {
        Some(AddonType::Entity)
    } else if l == addon_type_name(AddonType::Tool) {
        Some(AddonType::Tool)
    } else if l == addon_type_name(AddonType::Effects) {
        Some(AddonType::Effects)
    } else if l == addon_type_name(AddonType::Model) {
        Some(AddonType::Model)
    } else if l == addon_type_name(AddonType::ServerContent) {
        Some(AddonType::ServerContent)
    } else {
        None
    }
}

/// The addon tag named by `s`, whatever the case of its ASCII letters.
pub open spec fn tag_from_name(s: Seq<char>) -> Option<AddonTag> {
    let l = lower(s);
    if l == addon_tag_name(AddonTag::Fun) {
        Some(AddonTag::Fun)
    } else if l == addon_tag_name(AddonTag::Roleplay) {
        Some(AddonTag::Roleplay)
    } else if l == addon_tag_name(AddonTag::Scenic) {
        Some(AddonTag::Scenic)
    } else if l == addon_tag_name(AddonTag::Movie) {
        Some(AddonTag::Movie)
    } else if l == addon_tag_name(AddonTag::Realism) {
        Some(AddonTag::Realism)
    } else if l == addon_tag_name(AddonTag::Cartoon) {
        Some(AddonTag::Cartoon)
    } else if l == addon_tag_name(AddonTag::Water) {
        Some(AddonTag::Water)
    } else if l == addon_tag_name(AddonTag::Comic) {
        Some(AddonTag::Comic)
    } else if l == addon_tag_name(AddonTag::Build) {
        Some(AddonTag::Build)
    } else {
        None
    }
}

/// The hexadecimal digit of `n`, in lower case.
pub open spec fn hex_digit(n: u32) -> char {
    if n < 10 {
        ((n + 48) as u8) as char
    } else {
        ((n + 87) as u8) as char
    }
}

/// Whether `c` is an ASCII control character.
pub open spec fn is_control(c: char) -> bool {
    (c as u32) < 32 || (c as u32) == 127
}

/// How one character stands inside a JSON string.
pub open spec fn escape_char(c: char) -> Seq<char> {
    if c == '\x08' {
        seq!['\\', 'b']
    } else if c == '\x0C' {
        seq!['\\', 'f']
    } else if c == '\n' {
        seq!['\\', 'n']
    } else if c == '\r' {
        seq!['\\', 'r']
    } else if c == '\t' {
        seq!['\\', 't']
    } else if is_control(c) {
        seq!['\\', 'u', '0', '0', hex_digit((c as u32) / 16), hex_digit((c as u32) % 16)]
    } else if c == '\\' {
        seq!['\\', '\\']
    } else if c == '"' {
        seq!['\\', '"']
    } else {
        seq![c]
    }
}

/// The characters of `s`, escaped for a JSON string.
pub open spec fn escaped(s: Seq<char>) -> Seq<char>
    decreases s.len(),
{
    if s.len() == 0 {
        Seq::empty()
    } else {
        escaped(s.drop_last()) + escape_char(s.last())
    }
}

/// `s` as a JSON string literal.
pub open spec fn quoted(s: Seq<char>) -> Seq<char> {
    seq!['"'] + escaped(s) + seq!['"']
}

/// The JSON string literals of `items`, separated by commas.
pub open spec fn quoted_list(items: Seq<Seq<char>>) -> Seq<char>
    decreases items.len(),
{
    if items.len() == 0 {
        Seq::empty()
    } else if items.len() == 1 {
        quoted(items[0])
    } else {
        quoted_list(items.drop_last()) + seq![','] + quoted(items.last())
    }
}

/// The fields of a metadata record.
pub ghost struct MetadataModel {
    pub title: Option<Seq<char>>,
    pub description: Seq<char>,
    pub addon_type: Seq<char>,
    pub tags: Seq<Seq<char>>,
}

/// The JSON text of a metadata record: an object with the title (when there is
/// one), the description, the type and the list of tags, in that order.
pub open spec fn json_of(m: MetadataModel) -> Seq<char> {
    let title = match m.title {
        Some(t) => "\"title\":"@ + quoted(t) + ","@,
        None => Seq::empty(),
    };
    "{"@ + title + "\"description\":"@ + quoted(m.description) + ",\"type\":"@ + quoted(
        m.addon_type,
    ) + ",\"tags\":["@ + quoted_list(m.tags) + "]}"@
}

/// Relies on `String`'s `FromIterator<char>`: the string holds the characters in order.
#[verifier::external_body]
fn string_from_chars(chars: &Vec<char>) -> (r: String)
    ensures
        r@ == chars@,
{
    chars.iter().collect()
}

/// The characters of `s`.
fn chars_of(s: &str) -> (r: Vec<char>)
    ensures
        r@ == s@,
{
    let mut out: Vec<char> = Vec::new();
    let mut it = s.chars();
    let ghost all = s@;
    loop
        invariant
            it.obeys_prophetic_iter_laws(),
            it.decrease() is Some,
            all == s@,
            out@ + it.remaining() == all,
        decreases it.decrease()->0,
    {
        let ghost before = it.remaining();
        match it.next() {
            Some(c) => {
                assert(before == seq![c] + it.remaining()) by {
                    assert(before =~= seq![before[0]] + before.drop_first());
                }
                out.push(c);
                assert(out@ + it.remaining() =~= all);
            },
            None => {
                assert(out@ =~= all);
                return out;
            },
        }
    }
}

/// Appends the characters of `s` to `out`.
fn push_str(out: &mut Vec<char>, s: &str)
    ensures
        final(out)@ == old(out)@ + s@,
{
    let mut c = chars_of(s);
    out.append(&mut c);
}

fn hex(n: u32) -> (r: char)
    requires
        n < 16,
    ensures
        r == hex_digit(n),
{
    if n < 10 {
        ((n + 48) as u8) as char
    } else {
        ((n + 87) as u8) as char
    }
}

/// Appends `s` to `out` as a JSON string literal.
fn push_quoted(out: &mut Vec<char>, s: &str)
    ensures
        final(out)@ == old(out)@ + quoted(s@),
{
    let chars = chars_of(s);
    out.push('"');
    let mut i: usize = 0;
    while i < chars.len()
        invariant
            i <= chars@.len(),
            chars@ == s@,
            out@ == old(out)@ + seq!['"'] + escaped(chars@.subrange(0, i as int)),
        decreases chars@.len() - i,
    {
        let c = chars[i];
        let ghost prefix = chars@.subrange(0, i as int);
        let cu = c as u32;
        if c == '\x08' {
            out.push('\\');
            out.push('b');
        } else if c == '\x0C' {
            out.push('\\');
            out.push('f');
        } else if c == '\n' {
            out.push('\\');
            out.push('n');
        } else if c == '\r' {
            out.push('\\');
            out.push('r');
        } else if c == '\t' {
            out.push('\\');
            out.push('t');
        } else if cu < 32 || cu == 127 {
            out.push('\\');
            out.push('u');
            out.push('0');
            out.push('0');
            out.push(hex(cu / 16));
            out.push(hex(cu % 16));
        } else if c == '\\' {
            out.push('\\');
            out.push('\\');
        } else if c == '"' {
            out.push('\\');
            out.push('"');
        } else {
            out.push(c);
        }
        i = i + 1;
        assert(chars@.subrange(0, i as int).drop_last() =~= prefix);
        assert(out@ =~= old(out)@ + seq!['"'] + escaped(chars@.subrange(0, i as int)));
    }
    out.push('"');
    assert(chars@.subrange(0, chars@.len() as int) =~= s@);
    assert(out@ =~= old(out)@ + quoted(s@));
}

/// The metadata record stored in an archive.
#[derive(Debug)]
pub struct AddonMetadata {
    title: Option<String>,
    description: String,
    addon_type: String,
    tags: Vec<String>,
}

impl View for AddonMetadata {
    type V = MetadataModel;

    closed spec fn view(&self) -> MetadataModel {
        MetadataModel {
            title: match self.title {
                Some(t) => Some(t@),
                None => None,
            },
            description: self.description@,
            addon_type: self.addon_type@,
            tags: self.tags@.map_values(|t: String| t@),
        }
    }
}

impl AddonMetadata {
    /// A record with the given title and description, the name of `addon_type`
    /// and the names of `addon_tags`.
    pub fn new(
        title: String,
        description: String,
        addon_type: &AddonType,
        addon_tags: &[AddonTag],
    ) -> (r: Self)
        ensures
            r@.title == Some(title@),
            r@.description == description@,
            r@.addon_type == addon_type_name(*addon_type),
            r@.tags == addon_tags@.map_values(|t: AddonTag| addon_tag_name(t)),
    {
        let mut string_tags: Vec<String> = Vec::new();
        let mut i: usize = 0;
        while i < addon_tags.len()
            invariant
                i <= addon_tags@.len(),
                string_tags@.len() == i,
                forall|j: int| 0 <= j < i ==> #[trigger] string_tags@[j]@ == addon_tag_name(addon_tags@[j]),
            decreases addon_tags@.len() - i,
        {
            let name = Self::tag_to_string(&addon_tags[i]);
            string_tags.push(name);
            i = i + 1;
        }
        assert(string_tags@.map_values(|t: String| t@) =~= addon_tags@.map_values(
            |t: AddonTag| addon_tag_name(t),
        ));
        AddonMetadata {
            title: Some(title),
            description,
            addon_type: Self::type_to_string(addon_type),
            tags: string_tags,
        }
    }

    /// The JSON text of this record.
    pub fn to_json(&self) -> (r: String)
        ensures
            r@ == json_of(self@),
    {
        let mut out: Vec<char> = Vec::new();
        push_str(&mut out, "{");
        match &self.title {
            Some(t) => {
                push_str(&mut out, "\"title\":");
                push_quoted(&mut out, t.as_str());
                push_str(&mut out, ",");
            },
            None => {},
        }
        push_str(&mut out, "\"description\":");
        push_quoted(&mut out, self.description.as_str());
        push_str(&mut out, ",\"type\":");
        push_quoted(&mut out, self.addon_type.as_str());
        push_str(&mut out, ",\"tags\":[");
        let ghost before = out@;
        let ghost tags = self.tags@.map_values(|t: String| t@);
        let mut i: usize = 0;
        while i < self.tags.len()
            invariant
                i <= self.tags@.len(),
                tags == self.tags@.map_values(|t: String| t@),
                out@ == before + quoted_list(tags.subrange(0, i as int)),
            decreases self.tags@.len() - i,
        {
            let ghost prev = out@;
            proof {
                reveal_strlit(",");
            }
            assert(tags[i as int] == self.tags@[i as int]@);
            if i > 0 {
                push_str(&mut out, ",");
            }
            push_quoted(&mut out, self.tags[i].as_str());
            assert(tags.subrange(0, i + 1).last() == tags[i as int]);
            if i == 0 {
                assert(quoted_list(tags.subrange(0, 1)) == quoted(tags.subrange(0, 1)[0]));
                assert(out@ =~= before + quoted_list(tags.subrange(0, 1)));
            } else {
                assert(out@ =~= prev + seq![','] + quoted(tags[i as int]));
            }
            i = i + 1;
            assert(tags.subrange(0, i as int).drop_last() =~= tags.subrange(0, i - 1));
            assert(out@ =~= before + quoted_list(tags.subrange(0, i as int)));
        }
        push_str(&mut out, "]}");
        assert(tags.subrange(0, tags.len() as int) =~= tags);
        let r = string_from_chars(&out);
        assert(r@ =~= json_of(self@));
        r
    }

    fn type_to_string(ty: &AddonType) -> (r: String)
        ensures
            r@ == addon_type_name(*ty),
    {
        match ty {
            AddonType::Gamemode => "gamemode".to_owned(),
            AddonType::GameMap => "map".to_owned(),
            AddonType::Weapon => "weapon".to_owned(),
            AddonType::Vehicle => "vehicle".to_owned(),
            AddonType::NPC => "npc".to_owned(),
            AddonType::Entity => "entity".to_owned(),
            AddonType::Tool => "tool".to_owned(),
            AddonType::Effects => "effects".to_owned(),
            AddonType::Model => "model".to_owned(),
            AddonType::ServerContent => "servercontent".to_owned(),
        }
    }

    fn tag_to_string(tag: &AddonTag) -> (r: String)
        ensures
            r@ == addon_tag_name(*tag),
    {
        match tag {
            AddonTag::Fun => "fun".to_owned(),
            AddonTag::Roleplay => "roleplay".to_owned(),
            AddonTag::Scenic => "scenic".to_owned(),
            AddonTag::Movie => "movie".to_owned(),
            AddonTag::Realism => "realism".to_owned(),
            AddonTag::Cartoon => "cartoon".to_owned(),
            AddonTag::Water => "water".to_owned(),
            AddonTag::Comic => "comic".to_owned(),
            AddonTag::Build => "build".to_owned(),
        }
    }
}


/// Whether `c` is JSON white space.
pub open spec fn is_ws(c: char) -> bool {
    c == ' ' || c == '\t' || c == '\n' || c == '\r'
}

/// The first position from `p` on that holds no white space.
pub open spec fn skip_ws(s: Seq<char>, p: int) -> int
    decreases s.len() - p,
{
    if 0 <= p < s.len() && is_ws(s[p]) {
        skip_ws(s, p + 1)
    } else {
        p
    }
}

/// The value of a hexadecimal digit.
pub open spec fn hex_value(c: char) -> Option<u32> {
    if '0' <= c <= '9' {
        Some((c as u32 - 48) as u32)
    } else if 'a' <= c <= 'f' {
        Some((c as u32 - 87) as u32)
    } else if 'A' <= c <= 'F' {
        Some((c as u32 - 55) as u32)
    } else {
        None
    }
}

/// The value of the four hexadecimal digits from `p` on.
pub open spec fn hex4(s: Seq<char>, p: int) -> Option<u32> {
    if 0 <= p && p + 4 <= s.len() {
        match (hex_value(s[p]), hex_value(s[p + 1]), hex_value(s[p + 2]), hex_value(s[p + 3])) {
            (Some(a), Some(b), Some(c), Some(d)) => Some((a * 4096 + b * 256 + c * 16 + d) as u32),
            _ => None,
        }
    } else {
        None
    }
}

/// The character whose code point is `v`, if `v` is a Unicode scalar value.
pub open spec fn scalar_char(v: u32) -> Option<char> {
    if v < 0xD800 || (0xE000 <= v && v <= 0x10FFFF) {
        Some(v as char)
    } else {
        None
    }
}

/// The character that the escape sequence after a backslash at `p - 1` stands
/// for, and the position after it. A `\u` escape of a leading surrogate must be
/// followed by one of a trailing surrogate; the pair stands for one character.
pub open spec fn unescape(s: Seq<char>, p: int) -> Option<(char, int)> {
    if !(0 <= p < s.len()) {
        None
    } else if s[p] == '"' || s[p] == '\\' || s[p] == '/' {
        Some((s[p], p + 1))
    } else if s[p] == 'b' {
        Some(('\x08', p + 1))
    } else if s[p] == 'f' {
        Some(('\x0C', p + 1))
    } else if s[p] == 'n' {
        Some(('\n', p + 1))
    } else if s[p] == 'r' {
        Some(('\r', p + 1))
    } else if s[p] == 't' {
        Some(('\t', p + 1))
    } else if s[p] == 'u' {
        match hex4(s, p + 1) {
            None => None,
            Some(a) => match scalar_char(a) {
                Some(c) => Some((c, p + 5)),
                None => if 0xD800 <= a < 0xDC00 && p + 6 < s.len() && s[p + 5] == '\\' && s[p + 6]
                    == 'u' {
                    match hex4(s, p + 7) {
                        Some(b) => if 0xDC00 <= b < 0xE000 {
                            match scalar_char(((a - 0xD800) * 1024 + (b - 0xDC00) + 0x10000) as u32) {
                                Some(c) => Some((c, p + 11)),
                                None => None,
                            }
                        } else {
                            None
                        },
                        None => None,
                    }
                } else {
                    None
                },
            },
        }
    } else {
        None
    }
}

/// The characters of a JSON string whose body starts at `p`, and the position
/// after its closing quote.
pub open spec fn str_body(s: Seq<char>, p: int) -> Option<(Seq<char>, int)>
    decreases s.len() - p,
{
    if !(0 <= p < s.len()) {
        None
    } else if s[p] == '"' {
        Some((Seq::empty(), p + 1))
    } else {
        let (c, q) = if s[p] == '\\' {
            match unescape(s, p + 1) {
                Some((c, q)) => (c, q),
                None => (s[p], p),
            }
        } else {
            (s[p], p + 1)
        };
        if q <= p {
            None
        } else {
            match str_body(s, q) {
                Some((rest, e)) => Some((seq![c] + rest, e)),
                None => None,
            }
        }
    }
}

/// The JSON string that starts at `p`.
pub open spec fn parse_str(s: Seq<char>, p: int) -> Option<(Seq<char>, int)> {
    if 0 <= p < s.len() && s[p] == '"' {
        str_body(s, p + 1)
    } else {
        None
    }
}

/// The items of a list of JSON strings whose first item starts at `p`, and
/// the position after the closing bracket.
pub open spec fn list_items(s: Seq<char>, p: int) -> Option<(Seq<Seq<char>>, int)>
    decreases s.len() - p,
{
    match parse_str(s, p) {
        None => None,
        Some((item, q)) => {
            let r = skip_ws(s, q);
            if 0 <= r < s.len() && s[r] == ']' {
                Some((seq![item], r + 1))
            } else if 0 <= r < s.len() && s[r] == ',' {
                let t = skip_ws(s, r + 1);
                if t <= p || t > s.len() {
                    None
                } else {
                    match list_items(s, t) {
                        Some((rest, e)) => Some((seq![item] + rest, e)),
                        None => None,
                    }
                }
            } else {
                None
            }
        },
    }
}

/// The list of JSON strings that starts at `p`.
pub open spec fn parse_list(s: Seq<char>, p: int) -> Option<(Seq<Seq<char>>, int)> {
    if 0 <= p < s.len() && s[p] == '[' {
        let q = skip_ws(s, p + 1);
        if 0 <= q < s.len() && s[q] == ']' {
            Some((Seq::empty(), q + 1))
        } else {
            list_items(s, q)
        }
    } else {
        None
    }
}

/// Whether `null` starts at `p`.
pub open spec fn is_null_at(s: Seq<char>, p: int) -> bool {
    0 <= p && p + 4 <= s.len() && s[p] == 'n' && s[p + 1] == 'u' && s[p + 2] == 'l' && s[p + 3]
        == 'l'
}

/// The fields found so far in a metadata object.
pub ghost struct FoundFields {
    pub title: Option<Seq<char>>,
    pub description: Option<Seq<char>>,
    pub addon_type: Option<Seq<char>>,
    pub tags: Option<Seq<Seq<char>>>,
}

/// Whether `w` starts at `p`.
pub open spec fn word_at(s: Seq<char>, p: int, w: Seq<char>) -> bool {
    0 <= p && p + w.len() <= s.len() && s.subrange(p, p + w.len()) == w
}

/// The first position from `p` on that holds no decimal digit.
pub open spec fn skip_digits(s: Seq<char>, p: int) -> int
    decreases s.len() - p,
{
    if 0 <= p < s.len() && '0' <= s[p] <= '9' {
        skip_digits(s, p + 1)
    } else {
        p
    }
}

/// The position after the JSON number at `p`: a sign, digits, a fraction and
/// an exponent, of which the digits before the fraction must be there.
pub open spec fn skip_number(s: Seq<char>, p: int) -> Option<int> {
    let a = if 0 <= p < s.len() && (s[p] == '-' || s[p] == '+') {
        p + 1
    } else {
        p
    };
    let b = skip_digits(s, a);
    let c = if 0 <= b < s.len() && s[b] == '.' {
        skip_digits(s, b + 1)
    } else {
        b
    };
    let d = if 0 <= c < s.len() && (s[c] == 'e' || s[c] == 'E') {
        let e = if 0 <= c + 1 < s.len() && (s[c + 1] == '-' || s[c + 1] == '+') {
            c + 2
        } else {
            c + 1
        };
        let f = skip_digits(s, e);
        if f == e {
            -1
        } else {
            f
        }
    } else {
        c
    };
    if b == a || d < 0 {
        None
    } else {
        Some(d)
    }
}

/// The position after the JSON value at `p`, whatever its kind.
pub open spec fn skip_value(s: Seq<char>, p: int) -> Option<int>
    decreases s.len() - p, 0int,
{
    if !(0 <= p < s.len()) {
        None
    } else if s[p] == '"' {
        match parse_str(s, p) {
            Some((_, q)) => Some(q),
            None => None,
        }
    } else if word_at(s, p, "null"@) || word_at(s, p, "true"@) {
        Some(p + 4)
    } else if word_at(s, p, "false"@) {
        Some(p + 5)
    } else if s[p] == '[' || s[p] == '{' {
        let q = skip_ws(s, p + 1);
        if 0 <= q < s.len() && (s[q] == ']' && s[p] == '[' || s[q] == '}' && s[p] == '{') {
            Some(q + 1)
        } else if q <= p || q > s.len() {
            None
        } else if s[p] == '[' {
            skip_items(s, q)
        } else {
            skip_members(s, q)
        }
    } else {
        skip_number(s, p)
    }
}

/// The position after the closing bracket of a list whose first item is at `p`.
pub open spec fn skip_items(s: Seq<char>, p: int) -> Option<int>
    decreases s.len() - p, 1int,
{
    match skip_value(s, p) {
        None => None,
        Some(q) => {
            let r = skip_ws(s, q);
            if 0 <= r < s.len() && s[r] == ']' {
                Some(r + 1)
            } else if 0 <= r < s.len() && s[r] == ',' {
                let t = skip_ws(s, r + 1);
                if t <= p || t > s.len() {
                    None
                } else {
                    skip_items(s, t)
                }
            } else {
                None
            }
        },
    }
}

/// The position after the closing brace of an object whose first member is at `p`.
pub open spec fn skip_members(s: Seq<char>, p: int) -> Option<int>
    decreases s.len() - p, 1int,
{
    match parse_str(s, p) {
        None => None,
        Some((_, q)) => {
            let q1 = skip_ws(s, q);
            let v = skip_ws(s, q1 + 1);
            if !(0 <= q1 < s.len() && s[q1] == ':') || v <= p || v > s.len() {
                None
            } else {
                match skip_value(s, v) {
                    None => None,
                    Some(q3) => {
                        let q4 = skip_ws(s, q3);
                        if 0 <= q4 < s.len() && s[q4] == '}' {
                            Some(q4 + 1)
                        } else if 0 <= q4 < s.len() && s[q4] == ',' {
                            let q5 = skip_ws(s, q4 + 1);
                            if q5 <= p || q5 > s.len() {
                                None
                            } else {
                                skip_members(s, q5)
                            }
                        } else {
                            None
                        }
                    },
                }
            }
        },
    }
}

/// The fields after reading the value of the member `key` at `p`, and the
/// position after the value. A title may be `null`; a member of another name
/// is skipped, whatever JSON value it has.
#[verifier::opaque]
pub open spec fn member_value(s: Seq<char>, p: int, key: Seq<char>, acc: FoundFields) -> Option<
    (FoundFields, int),
> {
    if key == "title"@ {
        if is_null_at(s, p) {
            Some((FoundFields { title: None, ..acc }, p + 4))
        } else {
            match parse_str(s, p) {
                Some((v, q)) => Some((FoundFields { title: Some(v), ..acc }, q)),
                None => None,
            }
        }
    } else if key == "description"@ {
        match parse_str(s, p) {
            Some((v, q)) => Some((FoundFields { description: Some(v), ..acc }, q)),
            None => None,
        }
    } else if key == "type"@ {
        match parse_str(s, p) {
            Some((v, q)) => Some((FoundFields { addon_type: Some(v), ..acc }, q)),
            None => None,
        }
    } else if key == "tags"@ {
        match parse_list(s, p) {
            Some((v, q)) => Some((FoundFields { tags: Some(v), ..acc }, q)),
            None => None,
        }
    } else {
        match skip_value(s, p) {
            Some(q) => Some((acc, q)),
            None => None,
        }
    }
}

/// The fields of the object members that start at `p`, and the position after
/// the closing brace.
pub open spec fn members(s: Seq<char>, p: int, acc: FoundFields) -> Option<(FoundFields, int)>
    decreases s.len() - p,
{
    match parse_str(s, p) {
        None => None,
        Some((key, q)) => {
            let q1 = skip_ws(s, q);
            if !(0 <= q1 < s.len() && s[q1] == ':') {
                None
            } else {
                match member_value(s, skip_ws(s, q1 + 1), key, acc) {
                    None => None,
                    Some((acc2, q3)) => {
                        let q4 = skip_ws(s, q3);
                        if 0 <= q4 < s.len() && s[q4] == '}' {
                            Some((acc2, q4 + 1))
                        } else if 0 <= q4 < s.len() && s[q4] == ',' {
                            let q5 = skip_ws(s, q4 + 1);
                            if q5 <= p || q5 > s.len() {
                                None
                            } else {
                                members(s, q5, acc2)
                            }
                        } else {
                            None
                        }
                    },
                }
            }
        },
    }
}

/// The metadata record that the text `s` holds, if it is a JSON object with a
/// description, a type and a list of tags (and maybe a title), and nothing after it.
pub open spec fn decode_metadata(s: Seq<char>) -> Option<MetadataModel> {
    let p = skip_ws(s, 0);
    let none = FoundFields { title: None, description: None, addon_type: None, tags: None };
    if !(0 <= p < s.len() && s[p] == '{') {
        None
    } else {
        let q = skip_ws(s, p + 1);
        let found = if 0 <= q < s.len() && s[q] == '}' {
            Some((none, q + 1))
        } else {
            members(s, q, none)
        };
        match found {
            None => None,
            Some((f, e)) => if skip_ws(s, e) == s.len() && f.description is Some
                && f.addon_type is Some && f.tags is Some {
                Some(
                    MetadataModel {
                        title: f.title,
                        description: f.description->0,
                        addon_type: f.addon_type->0,
                        tags: f.tags->0,
                    },
                )
            } else {
                None
            },
        }
    }
}


fn ws_at(s: &Vec<char>, i: usize) -> (r: bool)
    ensures
        r == (i < s@.len() && is_ws(s@[i as int])),
{
    i < s.len() && (s[i] == ' ' || s[i] == '\t' || s[i] == '\n' || s[i] == '\r')
}

fn skip_ws_exec(s: &Vec<char>, p: usize) -> (r: usize)
    ensures
        r == skip_ws(s@, p as int),
{
    let n = s.len();
    let mut i = p;
    while ws_at(s, i)
        invariant
            p <= i,
            n == s@.len(),
            skip_ws(s@, p as int) == skip_ws(s@, i as int),
        decreases s@.len() - i,
    {
        i = i + 1;
    }
    i
}

fn hex_value_exec(c: char) -> (r: Option<u32>)
    ensures
        r == hex_value(c),
{
    if '0' <= c && c <= '9' {
        Some(c as u32 - 48)
    } else if 'a' <= c && c <= 'f' {
        Some(c as u32 - 87)
    } else if 'A' <= c && c <= 'F' {
        Some(c as u32 - 55)
    } else {
        None
    }
}

/// Relies on `char::from_u32`: the character exactly for Unicode scalar values.
#[verifier::external_body]
fn char_from_u32(v: u32) -> (r: Option<char>)
    ensures
        r == scalar_char(v),
{
    char::from_u32(v)
}

fn hex4_exec(s: &Vec<char>, p: usize) -> (r: Option<u32>)
    ensures
        r == hex4(s@, p as int),
{
    if p > s.len() || s.len() - p < 4 {
        return None;
    }
    match (
        hex_value_exec(s[p]),
        hex_value_exec(s[p + 1]),
        hex_value_exec(s[p + 2]),
        hex_value_exec(s[p + 3]),
    ) {
        (Some(a), Some(b), Some(c), Some(d)) => Some(a * 4096 + b * 256 + c * 16 + d),
        _ => None,
    }
}

fn unescape_exec(s: &Vec<char>, p: usize) -> (r: Option<(char, usize)>)
    ensures
        match unescape(s@, p as int) {
            Some((c, q)) => r matches Some((c2, q2)) && c2 == c && q2 == q,
            None => r is None,
        },
{
    if p >= s.len() {
        return None;
    }
    let n = s.len();
    let c = s[p];
    if c == '"' || c == '\\' || c == '/' {
        Some((c, p + 1))
    } else if c == 'b' {
        Some(('\x08', p + 1))
    } else if c == 'f' {
        Some(('\x0C', p + 1))
    } else if c == 'n' {
        Some(('\n', p + 1))
    } else if c == 'r' {
        Some(('\r', p + 1))
    } else if c == 't' {
        Some(('\t', p + 1))
    } else if c == 'u' {
        let a = match hex4_exec(s, p + 1) {
            Some(a) => a,
            None => {
                return None;
            },
        };
        match char_from_u32(a) {
            Some(ch) => Some((ch, p + 5)),
            None => {
                if 0xD800 <= a && a < 0xDC00 && n - p > 6 && s[p + 5] == '\\' && s[p + 6] == 'u' {
                    match hex4_exec(s, p + 7) {
                        Some(b) => if 0xDC00 <= b && b < 0xE000 {
                            match char_from_u32((a - 0xD800) * 1024 + (b - 0xDC00) + 0x10000) {
                                Some(ch) => Some((ch, p + 11)),
                                None => None,
                            }
                        } else {
                            None
                        },
                        None => None,
                    }
                } else {
                    None
                }
            },
        }
    } else {
        None
    }
}

fn parse_str_exec(s: &Vec<char>, p: usize) -> (r: Option<(Vec<char>, usize)>)
    ensures
        match parse_str(s@, p as int) {
            Some((v, q)) => r matches Some((x, e)) && x@ == v && e == q,
            None => r is None,
        },
{
    if !(p < s.len() && s[p] == '"') {
        return None;
    }
    let mut out: Vec<char> = Vec::new();
    let mut i = p + 1;
    loop
        invariant
            p < i <= s@.len(),
            parse_str(s@, p as int) == match str_body(s@, i as int) {
                Some((rest, e)) => Some((out@ + rest, e)),
                None => None,
            },
        decreases s@.len() - i,
    {
        if i >= s.len() {
            return None;
        }
        let ch = s[i];
        if ch == '"' {
            assert(out@ + Seq::<char>::empty() =~= out@);
            return Some((out, i + 1));
        }
        let (c, q) = if ch == '\\' {
            match unescape_exec(s, i + 1) {
                Some(x) => x,
                None => (ch, i),
            }
        } else {
            (ch, i + 1)
        };
        if q <= i {
            return None;
        }
        let ghost prev = out@;
        out.push(c);
        proof {
            match str_body(s@, q as int) {
                Some((rest, e)) => {
                    assert(prev + (seq![c] + rest) =~= out@ + rest);
                },
                None => {},
            }
        }
        i = q;
    }
}

fn parse_list_exec(s: &Vec<char>, p: usize) -> (r: Option<(Vec<Vec<char>>, usize)>)
    ensures
        match parse_list(s@, p as int) {
            Some((v, q)) => r matches Some((x, e)) && x@.map_values(|c: Vec<char>| c@) == v && e
                == q,
            None => r is None,
        },
{
    if !(p < s.len() && s[p] == '[') {
        return None;
    }
    let q = skip_ws_exec(s, p + 1);
    if q < s.len() && s[q] == ']' {
        let v: Vec<Vec<char>> = Vec::new();
        assert(v@.map_values(|c: Vec<char>| c@) =~= Seq::<Seq<char>>::empty());
        return Some((v, q + 1));
    }
    let mut items: Vec<Vec<char>> = Vec::new();
    let mut i = q;
    assert(items@.map_values(|c: Vec<char>| c@) =~= Seq::<Seq<char>>::empty());
    loop
        invariant
            parse_list(s@, p as int) == match list_items(s@, i as int) {
                Some((rest, e)) => Some((items@.map_values(|c: Vec<char>| c@) + rest, e)),
                None => None,
            },
        decreases s@.len() - i,
    {
        let ghost prev = items@.map_values(|c: Vec<char>| c@);
        match parse_str_exec(s, i) {
            None => {
                return None;
            },
            Some((item, q2)) => {
                let ghost iv = item@;
                let r = skip_ws_exec(s, q2);
                if r < s.len() && s[r] == ']' {
                    items.push(item);
                    assert(items@.map_values(|c: Vec<char>| c@) =~= prev + seq![iv]);
                    return Some((items, r + 1));
                } else if r < s.len() && s[r] == ',' {
                    let t = skip_ws_exec(s, r + 1);
                    if t <= i || t > s.len() {
                        return None;
                    }
                    items.push(item);
                    proof {
                        assert(items@.map_values(|c: Vec<char>| c@) =~= prev.push(iv));
                        match list_items(s@, t as int) {
                            Some((rest, e)) => {
                                assert(prev + (seq![iv] + rest) =~= prev.push(iv) + rest);
                            },
                            None => {},
                        }
                    }
                    i = t;
                } else {
                    return None;
                }
            },
        }
    }
}

fn null_at(s: &Vec<char>, p: usize) -> (r: bool)
    ensures
        r == is_null_at(s@, p as int),
{
    p <= s.len() && s.len() - p >= 4 && s[p] == 'n' && s[p + 1] == 'u' && s[p + 2] == 'l' && s[p
        + 3] == 'l'
}

/// Whether `a` holds exactly the characters of `b`.
fn chars_eq(a: &Vec<char>, b: &str) -> (r: bool)
    ensures
        r == (a@ == b@),
{
    let bc = chars_of(b);
    if a.len() != bc.len() {
        return false;
    }
    let mut i: usize = 0;
    while i < a.len()
        invariant
            i <= a@.len() == bc@.len(),
            bc@ == b@,
            a@.subrange(0, i as int) == bc@.subrange(0, i as int),
        decreases a@.len() - i,
    {
        if a[i] != bc[i] {
            assert(a@[i as int] != b@[i as int]);
            return false;
        }
        assert(a@.subrange(0, i + 1) =~= a@.subrange(0, i as int).push(a@[i as int]));
        assert(bc@.subrange(0, i + 1) =~= bc@.subrange(0, i as int).push(bc@[i as int]));
        i = i + 1;
    }
    assert(a@ =~= a@.subrange(0, i as int));
    assert(bc@ =~= bc@.subrange(0, i as int));
    true
}

struct Found {
    title: Option<Vec<char>>,
    description: Option<Vec<char>>,
    addon_type: Option<Vec<char>>,
    tags: Option<Vec<Vec<char>>>,
}

impl View for Found {
    type V = FoundFields;

    closed spec fn view(&self) -> FoundFields {
        FoundFields {
            title: match self.title {
                Some(t) => Some(t@),
                None => None,
            },
            description: match self.description {
                Some(t) => Some(t@),
                None => None,
            },
            addon_type: match self.addon_type {
                Some(t) => Some(t@),
                None => None,
            },
            tags: match self.tags {
                Some(t) => Some(t@.map_values(|c: Vec<char>| c@)),
                None => None,
            },
        }
    }
}

/// Whether the characters of `w` start at `p`.
fn word_at_exec(s: &Vec<char>, p: usize, w: &str) -> (r: bool)
    ensures
        r == word_at(s@, p as int, w@),
{
    let wc = chars_of(w);
    let n = s.len();
    if p > n || n - p < wc.len() {
        return false;
    }
    let mut i: usize = 0;
    while i < wc.len()
        invariant
            i <= wc@.len(),
            n == s@.len(),
            wc@ == w@,
            p + wc@.len() <= s@.len(),
            s@.subrange(p as int, p + i) == wc@.subrange(0, i as int),
        decreases wc@.len() - i,
    {
        if s[p + i] != wc[i] {
            assert(s@.subrange(p as int, p + wc@.len())[i as int] != w@[i as int]);
            return false;
        }
        assert(s@.subrange(p as int, p + i + 1) =~= s@.subrange(p as int, p + i).push(s@[p + i]));
        assert(wc@.subrange(0, i + 1) =~= wc@.subrange(0, i as int).push(wc@[i as int]));
        i = i + 1;
    }
    assert(wc@.subrange(0, i as int) =~= wc@);
    true
}

fn skip_digits_exec(s: &Vec<char>, p: usize) -> (r: usize)
    ensures
        r == skip_digits(s@, p as int),
{
    let n = s.len();
    let mut i = p;
    while i < n && '0' <= s[i] && s[i] <= '9'
        invariant
            p <= i,
            n == s@.len(),
            skip_digits(s@, p as int) == skip_digits(s@, i as int),
        decreases n - i,
    {
        i = i + 1;
    }
    i
}

fn skip_number_exec(s: &Vec<char>, p: usize) -> (r: Option<usize>)
    ensures
        match skip_number(s@, p as int) {
            Some(q) => r == Some(q as usize) && q <= s@.len(),
            None => r is None,
        },
{
    proof {
        lemma_skip_digits_bound(s@, p as int);
    }
    let n = s.len();
    let a = if p < n && (s[p] == '-' || s[p] == '+') {
        p + 1
    } else {
        p
    };
    proof {
        lemma_skip_digits_bound(s@, a as int);
    }
    let b = skip_digits_exec(s, a);
    let c = if b < n && s[b] == '.' {
        proof {
            lemma_skip_digits_bound(s@, b + 1);
        }
        skip_digits_exec(s, b + 1)
    } else {
        b
    };
    if b == a {
        return None;
    }
    if c < n && (s[c] == 'e' || s[c] == 'E') {
        let e = if c + 1 < n && (s[c + 1] == '-' || s[c + 1] == '+') {
            c + 2
        } else {
            c + 1
        };
        proof {
            lemma_skip_digits_bound(s@, e as int);
        }
        let f = skip_digits_exec(s, e);
        if f == e {
            None
        } else {
            Some(f)
        }
    } else {
        Some(c)
    }
}

proof fn lemma_skip_digits_bound(s: Seq<char>, p: int)
    ensures
        p <= skip_digits(s, p),
        p <= s.len() ==> skip_digits(s, p) <= s.len(),
    decreases s.len() - p,
{
    if 0 <= p < s.len() && '0' <= s[p] <= '9' {
        lemma_skip_digits_bound(s, p + 1);
    }
}

fn skip_value_exec(s: &Vec<char>, p: usize) -> (r: Option<usize>)
    ensures
        match skip_value(s@, p as int) {
            Some(q) => r matches Some(x) && x as int == q,
            None => r is None,
        },
    decreases s@.len() - p, 0int,
{
    proof {
        reveal_strlit("null");
        reveal_strlit("true");
        reveal_strlit("false");
    }
    let n = s.len();
    if p >= n {
        return None;
    }
    if s[p] == '"' {
        match parse_str_exec(s, p) {
            Some((_, q)) => Some(q),
            None => None,
        }
    } else if word_at_exec(s, p, "null") || word_at_exec(s, p, "true") {
        Some(p + 4)
    } else if word_at_exec(s, p, "false") {
        Some(p + 5)
    } else if s[p] == '[' || s[p] == '{' {
        let q = skip_ws_exec(s, p + 1);
        if q < n && (s[q] == ']' && s[p] == '[' || s[q] == '}' && s[p] == '{') {
            Some(q + 1)
        } else if q <= p || q > n {
            None
        } else if s[p] == '[' {
            skip_items_exec(s, q)
        } else {
            skip_members_exec(s, q)
        }
    } else {
        match skip_number_exec(s, p) {
            Some(q) => Some(q),
            None => None,
        }
    }
}

fn skip_items_exec(s: &Vec<char>, p: usize) -> (r: Option<usize>)
    requires
        p <= s@.len(),
    ensures
        match skip_items(s@, p as int) {
            Some(q) => r matches Some(x) && x as int == q,
            None => r is None,
        },
    decreases s@.len() - p, 1int,
{
    let n = s.len();
    let mut i = p;
    loop
        invariant
            p <= i <= n,
            n == s@.len(),
            skip_items(s@, p as int) == skip_items(s@, i as int),
        decreases n - i,
    {
        let q = match skip_value_exec(s, i) {
            Some(q) => q,
            None => {
                return None;
            },
        };
        let r = skip_ws_exec(s, q);
        if r < n && s[r] == ']' {
            return Some(r + 1);
        } else if r < n && s[r] == ',' {
            let t = skip_ws_exec(s, r + 1);
            if t <= i || t > n {
                return None;
            }
            i = t;
        } else {
            return None;
        }
    }
}

fn skip_members_exec(s: &Vec<char>, p: usize) -> (r: Option<usize>)
    requires
        p <= s@.len(),
    ensures
        match skip_members(s@, p as int) {
            Some(q) => r matches Some(x) && x as int == q,
            None => r is None,
        },
    decreases s@.len() - p, 1int,
{
    let n = s.len();
    let mut i = p;
    loop
        invariant
            p <= i <= n,
            n == s@.len(),
            skip_members(s@, p as int) == skip_members(s@, i as int),
        decreases n - i,
    {
        let q = match parse_str_exec(s, i) {
            Some((_, q)) => q,
            None => {
                return None;
            },
        };
        let q1 = skip_ws_exec(s, q);
        if !(q1 < n && s[q1] == ':') {
            return None;
        }
        let v = skip_ws_exec(s, q1 + 1);
        if v <= i || v > n {
            return None;
        }
        let q3 = match skip_value_exec(s, v) {
            Some(q3) => q3,
            None => {
                return None;
            },
        };
        let q4 = skip_ws_exec(s, q3);
        if q4 < n && s[q4] == '}' {
            return Some(q4 + 1);
        } else if q4 < n && s[q4] == ',' {
            let q5 = skip_ws_exec(s, q4 + 1);
            if q5 <= i || q5 > n {
                return None;
            }
            i = q5;
        } else {
            return None;
        }
    }
}

fn member_value_exec(s: &Vec<char>, p: usize, key: &Vec<char>, acc: Found) -> (r: Option<(Found, usize)>)
    ensures
        match member_value(s@, p as int, key@, acc@) {
            Some((f, q)) => r matches Some((x, e)) && x@ == f && e == q,
            None => r is None,
        },
{
    proof {
        reveal(member_value);
    }
    let n = s.len();
    let mut acc = acc;
    if chars_eq(key, "title") {
        if null_at(s, p) {
            acc.title = None;
            Some((acc, p + 4))
        } else {
            match parse_str_exec(s, p) {
                Some((v, q)) => {
                    acc.title = Some(v);
                    Some((acc, q))
                },
                None => None,
            }
        }
    } else if chars_eq(key, "description") {
        match parse_str_exec(s, p) {
            Some((v, q)) => {
                acc.description = Some(v);
                Some((acc, q))
            },
            None => None,
        }
    } else if chars_eq(key, "type") {
        match parse_str_exec(s, p) {
            Some((v, q)) => {
                acc.addon_type = Some(v);
                Some((acc, q))
            },
            None => None,
        }
    } else if chars_eq(key, "tags") {
        match parse_list_exec(s, p) {
            Some((v, q)) => {
                acc.tags = Some(v);
                Some((acc, q))
            },
            None => None,
        }
    } else {
        match skip_value_exec(s, p) {
            Some(q) => Some((acc, q)),
            None => None,
        }
    }
}

fn members_exec(s: &Vec<char>, p: usize, start: Found) -> (r: Option<(Found, usize)>)
    ensures
        match members(s@, p as int, start@) {
            Some((f, q)) => r matches Some((x, e)) && x@ == f && e == q,
            None => r is None,
        },
{
    let ghost goal = members(s@, p as int, start@);
    let mut acc = start;
    let mut i = p;
    loop
        invariant
            goal == members(s@, p as int, start@),
            goal == members(s@, i as int, acc@),
        decreases s@.len() - i,
    {
        let (key, q) = match parse_str_exec(s, i) {
            Some(x) => x,
            None => {
                return None;
            },
        };
        let q1 = skip_ws_exec(s, q);
        if !(q1 < s.len() && s[q1] == ':') {
            return None;
        }
        let v = skip_ws_exec(s, q1 + 1);
        let (acc2, q3) = match member_value_exec(s, v, &key, acc) {
            Some(x) => x,
            None => {
                return None;
            },
        };
        let q4 = skip_ws_exec(s, q3);
        if q4 < s.len() && s[q4] == '}' {
            return Some((acc2, q4 + 1));
        } else if q4 < s.len() && s[q4] == ',' {
            let q5 = skip_ws_exec(s, q4 + 1);
            if q5 <= i || q5 > s.len() {
                return None;
            }
            acc = acc2;
            i = q5;
        } else {
            return None;
        }
    }
}

/// The strings holding the given characters.
fn strings_from(items: &Vec<Vec<char>>) -> (r: Vec<String>)
    ensures
        r@.map_values(|t: String| t@) == items@.map_values(|c: Vec<char>| c@),
{
    let mut out: Vec<String> = Vec::new();
    let mut i: usize = 0;
    while i < items.len()
        invariant
            i <= items@.len(),
            out@.len() == i,
            forall|j: int| 0 <= j < i ==> #[trigger] out@[j]@ == items@[j]@,
        decreases items@.len() - i,
    {
        out.push(string_from_chars(&items[i]));
        i = i + 1;
    }
    assert(out@.map_values(|t: String| t@) =~= items@.map_values(|c: Vec<char>| c@));
    out
}


/// The tags present in a pair of optional tags, in order.
pub open spec fn present_tags(pair: (Option<AddonTag>, Option<AddonTag>)) -> Seq<AddonTag> {
    let first = match pair.0 {
        Some(t) => seq![t],
        None => Seq::empty(),
    };
    let second = match pair.1 {
        Some(t) => seq![t],
        None => Seq::empty(),
    };
    first + second
}

/// The tags named by the first two names of a list; unknown names give `None`.
pub open spec fn tag_pair(tags: Seq<Seq<char>>) -> (Option<AddonTag>, Option<AddonTag>) {
    (
        if tags.len() > 0 {
            tag_from_name(tags[0])
        } else {
            None
        },
        if tags.len() > 1 {
            tag_from_name(tags[1])
        } else {
            None
        },
    )
}

/// The description, type and tags that an archive's metadata text gives: those
/// of the record when the text decodes to one, else the whole text as the
/// description with no type and no tags.
pub open spec fn metadata_fields(text: Seq<char>) -> (Seq<char>, Option<AddonType>, Seq<AddonTag>) {
    match decode_metadata(text) {
        Some(m) => (m.description, type_from_name(m.addon_type), present_tags(tag_pair(m.tags))),
        None => (text, None, Seq::empty()),
    }
}

fn lower_exec(s: &Vec<char>) -> (r: Vec<char>)
    ensures
        r@ == lower(s@),
{
    let mut out: Vec<char> = Vec::new();
    let mut i: usize = 0;
    while i < s.len()
        invariant
            i <= s@.len(),
            out@ == lower(s@.subrange(0, i as int)),
        decreases s@.len() - i,
    {
        let c = s[i];
        let l = if 'A' <= c && c <= 'Z' {
            ((c as u32 + 32) as u8) as char
        } else {
            c
        };
        out.push(l);
        i = i + 1;
        assert(out@ =~= lower(s@.subrange(0, i as int)));
    }
    assert(s@.subrange(0, s@.len() as int) =~= s@);
    out
}

impl AddonMetadata {
    /// Decodes a metadata record from its JSON text; `None` when the text is
    /// not such a record.
    pub fn from_json(json: &str) -> (r: Option<Self>)
        ensures
            match decode_metadata(json@) {
                Some(m) => r matches Some(x) && x@ == m,
                None => r is None,
            },
    {
        let s = chars_of(json);
        let p = skip_ws_exec(&s, 0);
        if !(p < s.len() && s[p] == '{') {
            return None;
        }
        let q = skip_ws_exec(&s, p + 1);
        let none = Found { title: None, description: None, addon_type: None, tags: None };
        let found = if q < s.len() && s[q] == '}' {
            Some((none, q + 1))
        } else {
            members_exec(&s, q, none)
        };
        let (f, e) = match found {
            Some(x) => x,
            None => {
                return None;
            },
        };
        if skip_ws_exec(&s, e) != s.len() {
            return None;
        }
        let title = match &f.title {
            Some(t) => Some(string_from_chars(t)),
            None => None,
        };
        match (&f.description, &f.addon_type, &f.tags) {
            (Some(d), Some(t), Some(tags)) => Some(
                AddonMetadata {
                    title,
                    description: string_from_chars(d),
                    addon_type: string_from_chars(t),
                    tags: strings_from(tags),
                },
            ),
            _ => None,
        }
    }

    /// Sets the description.
    pub fn set_description(&mut self, desc: String)
        ensures
            final(self)@ == (MetadataModel { description: desc@, ..old(self)@ }),
    {
        self.description = desc;
    }

    /// Sets the type to the name of `addon_type`.
    pub fn set_type(&mut self, addon_type: AddonType)
        ensures
            final(self)@ == (MetadataModel { addon_type: addon_type_name(addon_type), ..old(self)@ }),
    {
        self.addon_type = Self::type_to_string(&addon_type);
    }

    /// Sets the first two tags to the names of `tag1` and `tag2`; the record
    /// must already hold two tags.
    pub fn set_tags(&mut self, tag1: AddonTag, tag2: AddonTag)
        requires
            old(self)@.tags.len() >= 2,
        ensures
            final(self)@ == (MetadataModel {
                tags: old(self)@.tags.update(0, addon_tag_name(tag1)).update(1, addon_tag_name(tag2)),
                ..old(self)@
            }),
    {
        self.tags.set(0, Self::tag_to_string(&tag1));
        self.tags.set(1, Self::tag_to_string(&tag2));
        assert(self@.tags =~= old(self)@.tags.update(0, addon_tag_name(tag1)).update(
            1,
            addon_tag_name(tag2),
        ));
    }

    /// The description.
    pub fn get_description(&self) -> (r: &str)
        ensures
            r@ == self@.description,
    {
        self.description.as_str()
    }

    /// The type that the record names, if it names a known one.
    pub fn get_type(&self) -> (r: Option<AddonType>)
        ensures
            r == type_from_name(self@.addon_type),
    {
        Self::string_to_type(&self.addon_type)
    }

    /// The tags named by the first two tag names; an unknown name gives `None`.
    pub fn get_tags(&self) -> (r: (Option<AddonTag>, Option<AddonTag>))
        ensures
            r == tag_pair(self@.tags),
    {
        let t1 = if self.tags.len() > 0 {
            Self::string_to_tag(&self.tags[0])
        } else {
            None
        };
        let t2 = if self.tags.len() > 1 {
            Self::string_to_tag(&self.tags[1])
        } else {
            None
        };
        (t1, t2)
    }

    fn string_to_type(string: &String) -> (r: Option<AddonType>)
        ensures
            r == type_from_name(string@),
    {
        let l = lower_exec(&chars_of(string.as_str()));
        if chars_eq(&l, "gamemode") {
            Some(AddonType::Gamemode)
        } else if chars_eq(&l, "map") {
            Some(AddonType::GameMap)
        } else if chars_eq(&l, "weapon") {
            Some(AddonType::Weapon)
        } else if chars_eq(&l, "vehicle") {
            Some(AddonType::Vehicle)
        } else if chars_eq(&l, "npc") {
            Some(AddonType::NPC)
        } else if chars_eq(&l, "entity") {
            Some(AddonType::Entity)
        } else if chars_eq(&l, "tool") {
            Some(AddonType::Tool)
        } else if chars_eq(&l, "effects") {
            Some(AddonType::Effects)
        } else if chars_eq(&l, "model") {
            Some(AddonType::Model)
        } else if chars_eq(&l, "servercontent") {
            Some(AddonType::ServerContent)
        } else {
            None
        }
    }

    fn string_to_tag(string: &String) -> (r: Option<AddonTag>)
        ensures
            r == tag_from_name(string@),
    {
        let l = lower_exec(&chars_of(string.as_str()));
        if chars_eq(&l, "fun") {
            Some(AddonTag::Fun)
        } else if chars_eq(&l, "roleplay") {
            Some(AddonTag::Roleplay)
        } else if chars_eq(&l, "scenic") {
            Some(AddonTag::Scenic)
        } else if chars_eq(&l, "movie") {
            Some(AddonTag::Movie)
        } else if chars_eq(&l, "realism") {
            Some(AddonTag::Realism)
        } else if chars_eq(&l, "cartoon") {
            Some(AddonTag::Cartoon)
        } else if chars_eq(&l, "water") {
            Some(AddonTag::Water)
        } else if chars_eq(&l, "comic") {
            Some(AddonTag::Comic)
        } else if chars_eq(&l, "build") {
            Some(AddonTag::Build)
        } else {
            None
        }
    }
}


impl AddonType {
    /// The type named `value`, whatever the case of its ASCII letters; an
    /// unknown name is an `InvalidAddonType` error carrying it as
    /// `str::to_lowercase` gives it.
    pub fn from_name(value: &str) -> (r: Result<AddonType, Error>)
        ensures
            match type_from_name(value@) {
                Some(t) => r == Ok::<AddonType, Error>(t),
                None => r matches Err(Error::InvalidAddonType(s)) && s@ == lower_of(value@),
            },
    {
        let name = value.to_owned();
        match AddonMetadata::string_to_type(&name) {
            Some(t) => Ok(t),
            None => Err(Error::InvalidAddonType(to_lowercase(value))),
        }
    }
}

impl AddonTag {
    /// The tag named `value`, whatever the case of its ASCII letters; an
    /// unknown name is an `InvalidAddonTag` error carrying it as
    /// `str::to_lowercase` gives it.
    pub fn from_name(value: &str) -> (r: Result<AddonTag, Error>)
        ensures
            match tag_from_name(value@) {
                Some(t) => r == Ok::<AddonTag, Error>(t),
                None => r matches Err(Error::InvalidAddonTag(s)) && s@ == lower_of(value@),
            },
    {
        let name = value.to_owned();
        match AddonMetadata::string_to_tag(&name) {
            Some(t) => Ok(t),
            None => Err(Error::InvalidAddonTag(to_lowercase(value))),
        }
    }
}

} // verus!
