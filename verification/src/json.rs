//! The flat text form in which a component is kept: one object of string
//! pairs, of which `name` and `type` are read back. Reading and writing
//! the file that holds the text is left to the caller.

use vstd::prelude::*;
use vstd::string::{StrSliceExecFns, StringExecFns};

use crate::component::{Component, ComponentType, ComponentView};
use crate::text::{blank, is_space, is_whitespace, pieces, same_text, solid, split, texts};

verus! {

/// Why a text could not be read as an object of string pairs, or as a
/// component.
#[derive(Debug, Clone, Copy, PartialEq, Eq, Structural)]
pub enum JsonError {
    /// An item between two commas holds no colon.
    BadPair,
    /// The key that was asked for is not among the pairs.
    KeyNotFound,
    /// The object has no `name`.
    NoName,
    /// The object has no `type`.
    NoType,
    /// The `type` is no component type.
    UnknownType,
}

/// The text without its first and its last character; nothing is left of a
/// text of fewer than two.
pub open spec fn strip_outer(s: Seq<char>) -> Seq<char> {
    if s.len() < 2 {
        Seq::empty()
    } else {
        s.subrange(1, s.len() - 1)
    }
}

/// The text without any white space.
pub open spec fn squeeze(s: Seq<char>) -> Seq<char>
    decreases s.len(),
{
    if s.len() == 0 {
        s
    } else if is_whitespace(s.last()) {
        squeeze(s.drop_last())
    } else {
        squeeze(s.drop_last()).push(s.last())
    }
}

/// The items of an object: the text loses its white space and its braces,
/// and is cut at each comma.
pub open spec fn items_of(text: Seq<char>) -> Seq<Seq<char>> {
    split(strip_outer(squeeze(text)), ',')
}

/// The key and the value of an item: what stands before the first colon
/// and between the first and the second, each without its quotes. An item
/// without a colon is no pair.
pub open spec fn pair_of(item: Seq<char>) -> Option<(Seq<char>, Seq<char>)> {
    let parts = split(item, ':');
    if parts.len() >= 2 {
        Some((strip_outer(parts[0]), strip_outer(parts[1])))
    } else {
        None
    }
}

/// The keys after the items were taken in, in order, up to the first item
/// that is no pair, and whether all were pairs. A key that comes again
/// gets the later value.
pub open spec fn absorb(keys: Map<Seq<char>, Seq<char>>, items: Seq<Seq<char>>) -> (
    Map<Seq<char>, Seq<char>>,
    bool,
)
    decreases items.len(),
{
    if items.len() == 0 {
        (keys, true)
    } else {
        match pair_of(items.first()) {
            Some((key, value)) => absorb(keys.insert(key, value), items.drop_first()),
            None => (keys, false),
        }
    }
}

/// The map that a list of pairs stands for: a later pair wins.
pub open spec fn map_of(pairs: Seq<(Seq<char>, Seq<char>)>) -> Map<Seq<char>, Seq<char>>
    decreases pairs.len(),
{
    if pairs.len() == 0 {
        Map::empty()
    } else {
        map_of(pairs.drop_last()).insert(pairs.last().0, pairs.last().1)
    }
}

/// One pair as the writer puts it down.
pub open spec fn entry(key: Seq<char>, value: Seq<char>) -> Seq<char> {
    "    \""@ + key + "\": \""@ + value + "\",\n"@
}

/// The finished object: the last two characters, a comma and a line
/// break, give way to a line break and the closing brace.
pub open spec fn finished(json: Seq<char>) -> Seq<char> {
    (if json.len() < 2 {
        Seq::empty()
    } else {
        json.subrange(0, json.len() - 2)
    }) + "\n}"@
}

/// The component type that a label names.
pub open spec fn kind_of_label(label: Seq<char>) -> Option<ComponentType> {
    if label == ComponentType::CircuitBreaker.label() {
        Some(ComponentType::CircuitBreaker)
    } else if label == ComponentType::Disconnector.label() {
        Some(ComponentType::Disconnector)
    } else if label == ComponentType::EarthingSwitch.label() {
        Some(ComponentType::EarthingSwitch)
    } else if label == ComponentType::VoltageTransformer.label() {
        Some(ComponentType::VoltageTransformer)
    } else if label == ComponentType::Transformer.label() {
        Some(ComponentType::Transformer)
    } else {
        None
    }
}

/// The text of a component: its name and its type.
pub open spec fn json_of(component: ComponentView) -> Seq<char> {
    finished("{\n"@ + entry("name"@, component.name) + entry("type"@, component.kind.label()))
}

/// The component that a text holds: a new one of the name and the type
/// that the text gives.
pub open spec fn component_of(text: Seq<char>) -> Result<ComponentView, JsonError> {
    let (keys, complete) = absorb(Map::empty(), items_of(text));
    if !complete {
        Err(JsonError::BadPair)
    } else if !keys.contains_key("name"@) {
        Err(JsonError::NoName)
    } else if !keys.contains_key("type"@) {
        Err(JsonError::NoType)
    } else {
        match kind_of_label(keys["type"@]) {
            Some(kind) => Ok(ComponentView::fresh(kind, keys["name"@])),
            None => Err(JsonError::UnknownType),
        }
    }
}

/// Strip the first and last character of a string.
pub fn strip_outer_characters(s: &str) -> (inner: String)
    ensures
        inner@ == strip_outer(s@),
{
    let len = s.unicode_len();
    if len < 2 {
        String::new()
    } else {
        String::from_str(s.substring_char(1, len - 1))
    }
}

/// The text without its white space.
pub fn squeezed(text: &str) -> (dense: String)
    ensures
        dense@ == squeeze(text@),
{
    let len = text.unicode_len();
    let mut dense = String::new();
    let mut i: usize = 0;
    while i < len
        invariant
            i <= len,
            len == text@.len(),
            dense@ == squeeze(text@.subrange(0, i as int)),
        decreases len - i,
    {
        let c = text.get_char(i);
        proof {
            let more = text@.subrange(0, i + 1);
            assert(more.drop_last() =~= text@.subrange(0, i as int));
            assert(more.last() == c);
        }
        if !is_space(c) {
            let ghost before = dense@;
            let one = text.substring_char(i, i + 1);
            dense.append(one);
            proof {
                assert(one@ =~= seq![c]);
                assert(dense@ =~= before.push(c));
            }
        }
        i += 1;
    }
    proof {
        assert(text@.subrange(0, len as int) =~= text@);
    }
    dense
}

/// The component type that a label names.
pub fn kind_named(label: &str) -> (kind: Option<ComponentType>)
    ensures
        kind == kind_of_label(label@),
{
    if same_text(label, ComponentType::CircuitBreaker.name()) {
        Some(ComponentType::CircuitBreaker)
    } else if same_text(label, ComponentType::Disconnector.name()) {
        Some(ComponentType::Disconnector)
    } else if same_text(label, ComponentType::EarthingSwitch.name()) {
        Some(ComponentType::EarthingSwitch)
    } else if same_text(label, ComponentType::VoltageTransformer.name()) {
        Some(ComponentType::VoltageTransformer)
    } else if same_text(label, ComponentType::Transformer.name()) {
        Some(ComponentType::Transformer)
    } else {
        None
    }
}

/// The pairs of an object, as they were read.
pub struct JsonReader {
    keys: Vec<(String, String)>,
}

impl JsonReader {
    /// The pairs held, in the order in which they came.
    pub closed spec fn pairs(&self) -> Seq<(Seq<char>, Seq<char>)> {
        Seq::new(self.keys@.len(), |i: int| (self.keys@[i].0@, self.keys@[i].1@))
    }
}

impl View for JsonReader {
    type V = Map<Seq<char>, Seq<char>>;

    /// The value of each key.
    closed spec fn view(&self) -> Map<Seq<char>, Seq<char>> {
        map_of(self.pairs())
    }
}

impl JsonReader {
    /// A reader that holds no pair yet.
    pub fn new() -> (reader: JsonReader)
        ensures
            reader@ == Map::<Seq<char>, Seq<char>>::empty(),
    {
        JsonReader { keys: Vec::new() }
    }

    /// The value of the key.
    pub fn get_key(&self, key: &str) -> (r: Result<&str, JsonError>)
        ensures
            match r {
                Ok(value) => self@.contains_key(key@) && value@ == self@[key@],
                Err(e) => !self@.contains_key(key@) && e == JsonError::KeyNotFound,
            },
    {
        let ghost pairs = self.pairs();
        let mut found: Option<usize> = None;
        let mut i: usize = 0;
        while i < self.keys.len()
            invariant
                i <= self.keys@.len(),
                pairs == self.pairs(),
                match found {
                    Some(at) => at < i && map_of(pairs.subrange(0, i as int)).contains_key(key@)
                        && map_of(pairs.subrange(0, i as int))[key@] == pairs[at as int].1,
                    None => !map_of(pairs.subrange(0, i as int)).contains_key(key@),
                },
            decreases self.keys@.len() - i,
        {
            proof {
                let more = pairs.subrange(0, i + 1);
                assert(more.drop_last() =~= pairs.subrange(0, i as int));
                assert(more.last() == pairs[i as int]);
            }
            if same_text(self.keys[i].0.as_str(), key) {
                found = Some(i);
            }
            i += 1;
        }
        proof {
            assert(pairs.subrange(0, pairs.len() as int) =~= pairs);
        }
        match found {
            Some(at) => Ok(self.keys[at].1.as_str()),
            None => Err(JsonError::KeyNotFound),
        }
    }

    /// Takes in the pairs of the object that the text holds, in order. At
    /// the first item that is no pair the reading stops with an error, and
    /// the pairs before it stay.
    pub fn read(&mut self, text: &str) -> (r: Result<(), JsonError>)
        ensures
            final(self)@ == absorb(old(self)@, items_of(text@)).0,
            r is Ok <==> absorb(old(self)@, items_of(text@)).1,
            r is Err ==> r == Err::<(), JsonError>(JsonError::BadPair),
    {
        let dense = squeezed(text);
        let body = strip_outer_characters(dense.as_str());
        let items = pieces(body.as_str(), ',');
        let ghost all = texts(items@);
        let mut i: usize = 0;
        proof {
            assert(all.subrange(0, all.len() as int) =~= all);
        }
        while i < items.len()
            invariant
                i <= items@.len(),
                all == texts(items@),
                all == items_of(text@),
                absorb(old(self)@, all) == absorb(self@, all.subrange(i as int, all.len() as int)),
            decreases items@.len() - i,
        {
            let ghost rest = all.subrange(i as int, all.len() as int);
            proof {
                assert(rest.first() == items@[i as int]@);
                assert(rest.drop_first() =~= all.subrange(i + 1, all.len() as int));
            }
            let parts = pieces(items[i], ':');
            proof {
                assert(texts(parts@).len() == parts@.len());
            }
            if parts.len() < 2 {
                return Err(JsonError::BadPair);
            }
            let key = strip_outer_characters(parts[0]);
            let value = strip_outer_characters(parts[1]);
            proof {
                assert(texts(parts@)[0] == parts@[0]@);
                assert(texts(parts@)[1] == parts@[1]@);
                let before = self.pairs();
                let after = before.push((key@, value@));
                assert(after.drop_last() =~= before);
            }
            let ghost before = self.pairs();
            self.keys.push((key, value));
            proof {
                assert(self.pairs() =~= before.push((key@, value@)));
                assert(self.pairs().drop_last() =~= before);
            }
            i += 1;
        }
        Ok(())
    }
}

/// The text of an object while it is written, pair by pair.
pub struct JsonWriter {
    json: String,
}

impl View for JsonWriter {
    type V = Seq<char>;

    /// The text so far.
    closed spec fn view(&self) -> Seq<char> {
        self.json@
    }
}

impl JsonWriter {
    /// A writer that holds the opening brace.
    pub fn new() -> (writer: JsonWriter)
        ensures
            writer@ == "{\n"@,
    {
        JsonWriter { json: String::from_str("{\n") }
    }

    /// Puts down one pair.
    pub fn add_key(&mut self, key: &str, value: &str)
        ensures
            final(self)@ == old(self)@ + entry(key@, value@),
    {
        self.json.append("    \"");
        self.json.append(key);
        self.json.append("\": \"");
        self.json.append(value);
        self.json.append("\",\n");
        proof {
            assert(self@ =~= old(self)@ + entry(key@, value@));
        }
    }

    /// Closes the object and gives its text.
    pub fn write(self) -> (text: String)
        ensures
            text@ == finished(self@),
    {
        let len = self.json.as_str().unicode_len();
        if len < 2 {
            String::from_str("\n}")
        } else {
            let open = self.json.as_str().substring_char(0, len - 2);
            let text = String::from_str(open).concat("\n}");
            text
        }
    }
}

/// What can be read back from its text.
pub trait JsonReadable: Sized {
    /// Get object instance from json representation.
    fn from_json(text: &str) -> Result<Box<Self>, JsonError>;
}

/// What can be put down as text.
pub trait JsonWritable {
    /// Get json representation of object.
    fn to_json(&self) -> String;
}

/// Trait to (de)serialize objects to/from json.
pub trait JsonSerializable: JsonReadable + JsonWritable {

}

impl JsonWritable for Component {
    fn to_json(&self) -> (text: String)
        ensures
            text@ == json_of(self@),
    {
        let mut writer = JsonWriter::new();
        writer.add_key("name", self.name().as_str());
        writer.add_key("type", self.component_type().name());
        writer.write()
    }
}

impl JsonReadable for Component {
    fn from_json(text: &str) -> (r: Result<Box<Component>, JsonError>)
        ensures
            match r {
                Ok(component) => component.wf() && component_of(text@) == Ok::<
                    ComponentView,
                    JsonError,
                >(component@),
                Err(e) => component_of(text@) == Err::<ComponentView, JsonError>(e),
            },
    {
        let mut reader = JsonReader::new();
        if reader.read(text).is_err() {
            return Err(JsonError::BadPair);
        }
        let name = match reader.get_key("name") {
            Ok(name) => name,
            Err(_) => {
                return Err(JsonError::NoName);
            },
        };
        let label = match reader.get_key("type") {
            Ok(label) => label,
            Err(_) => {
                return Err(JsonError::NoType);
            },
        };
        match kind_named(label) {
            Some(kind) => Ok(Box::new(Component::new(kind, name))),
            None => Err(JsonError::UnknownType),
        }
    }
}

impl JsonSerializable for Component {

}

/// A text without white space, comma or colon: one that the flat form
/// keeps as it is.
pub open spec fn plain(s: Seq<char>) -> bool {
    forall|i: int|
        0 <= i < s.len() ==> !is_whitespace(#[trigger] s[i]) && s[i] != ',' && s[i] != ':'
}

/// Squeezing a text made of two is squeezing each.
pub proof fn lemma_squeeze_add(a: Seq<char>, b: Seq<char>)
    ensures
        squeeze(a + b) == squeeze(a) + squeeze(b),
    decreases b.len(),
{
    if b.len() == 0 {
        assert(a + b =~= a);
        assert(squeeze(a) + squeeze(b) =~= squeeze(a));
    } else {
        lemma_squeeze_add(a, b.drop_last());
        assert((a + b).drop_last() =~= a + b.drop_last());
        assert((a + b).last() == b.last());
        if is_whitespace(b.last()) {
        } else {
            assert((squeeze(a) + squeeze(b.drop_last())).push(b.last()) =~= squeeze(a)
                + squeeze(b.drop_last()).push(b.last()));
        }
    }
}

/// Squeezing leaves a text without white space as it is.
pub proof fn lemma_squeeze_solid(s: Seq<char>)
    requires
        solid(s),
    ensures
        squeeze(s) == s,
    decreases s.len(),
{
    if s.len() > 0 {
        assert forall|i: int| 0 <= i < s.drop_last().len() implies !is_whitespace(
            #[trigger] s.drop_last()[i],
        ) by {
            assert(s.drop_last()[i] == s[i]);
        }
        lemma_squeeze_solid(s.drop_last());
        assert(!is_whitespace(s[s.len() - 1]));
        assert(s.drop_last().push(s.last()) =~= s);
    }
}

/// Squeezing leaves nothing of a text of white space.
pub proof fn lemma_squeeze_blank(s: Seq<char>)
    requires
        blank(s),
    ensures
        squeeze(s) == Seq::<char>::empty(),
    decreases s.len(),
{
    if s.len() > 0 {
        assert forall|i: int| 0 <= i < s.drop_last().len() implies is_whitespace(
            #[trigger] s.drop_last()[i],
        ) by {
            assert(s.drop_last()[i] == s[i]);
        }
        lemma_squeeze_blank(s.drop_last());
        assert(is_whitespace(s[s.len() - 1]));
    } else {
        assert(s =~= Seq::<char>::empty());
    }
}

/// Two texts without the separator, with the separator between them, are
/// split into the two.
pub proof fn lemma_split_two(a: Seq<char>, b: Seq<char>, sep: char)
    requires
        forall|i: int| 0 <= i < a.len() ==> a[i] != sep,
        forall|i: int| 0 <= i < b.len() ==> b[i] != sep,
    ensures
        split(a + seq![sep] + b, sep) == seq![a, b],
{
    let whole = a + seq![sep] + b;
    crate::text::lemma_split_next(whole, sep, a.len() as int);
    assert(whole.subrange(0, a.len() as int) =~= a);
    assert(whole.subrange(a.len() as int + 1, whole.len() as int) =~= b);
    crate::text::lemma_split_last(b, sep);
    assert(seq![a] + seq![b] =~= seq![a, b]);
}

/// A text between two quotation marks.
pub open spec fn quoted(s: Seq<char>) -> Seq<char> {
    seq!['"'] + s + seq!['"']
}

/// A pair in its shortest form: the quoted key, a colon, the quoted value.
pub open spec fn dense_pair(key: Seq<char>, value: Seq<char>) -> Seq<char> {
    quoted(key) + seq![':'] + quoted(value)
}

/// Without its white space, a pair as the writer puts it down is the pair
/// in its shortest form and a comma.
pub proof fn lemma_squeeze_entry(key: Seq<char>, value: Seq<char>)
    requires
        solid(key),
        solid(value),
    ensures
        squeeze(entry(key, value)) == dense_pair(key, value) + seq![','],
        entry(key, value).len() >= 2,
        squeeze(entry(key, value).subrange(0, entry(key, value).len() - 2)) == dense_pair(
            key,
            value,
        ),
{
    reveal_strlit("    \"");
    reveal_strlit("\": \"");
    reveal_strlit("\",\n");
    let indent = seq![' ', ' ', ' ', ' '];
    let quote = seq!['"'];
    let colon = seq![':'];
    let gap = seq![' '];
    let comma = seq![','];
    let line = seq!['\n'];
    let whole = entry(key, value);
    let open = indent + quote + key + quote + colon + gap + quote + value + quote;
    assert(whole =~= open + comma + line);
    assert(whole.subrange(0, whole.len() - 2) =~= open);
    lemma_squeeze_blank(indent);
    lemma_squeeze_solid(quote);
    lemma_squeeze_solid(key);
    lemma_squeeze_solid(colon);
    lemma_squeeze_blank(gap);
    lemma_squeeze_solid(value);
    lemma_squeeze_solid(comma);
    lemma_squeeze_blank(line);
    lemma_squeeze_add(indent, quote);
    lemma_squeeze_add(indent + quote, key);
    lemma_squeeze_add(indent + quote + key, quote);
    lemma_squeeze_add(indent + quote + key + quote, colon);
    lemma_squeeze_add(indent + quote + key + quote + colon, gap);
    lemma_squeeze_add(indent + quote + key + quote + colon + gap, quote);
    lemma_squeeze_add(indent + quote + key + quote + colon + gap + quote, value);
    lemma_squeeze_add(indent + quote + key + quote + colon + gap + quote + value, quote);
    assert(squeeze(open) =~= dense_pair(key, value));
    lemma_squeeze_add(open, comma);
    lemma_squeeze_add(open + comma, line);
    assert(squeeze(whole) =~= dense_pair(key, value) + comma);
}

/// Without its white space, an object of two pairs as the writer leaves it
/// is an opening brace, the two pairs in their shortest form with a comma
/// between them, and a closing brace.
pub proof fn lemma_squeeze_object(
    first: (Seq<char>, Seq<char>),
    second: (Seq<char>, Seq<char>),
)
    requires
        solid(first.0),
        solid(first.1),
        solid(second.0),
        solid(second.1),
    ensures
        squeeze(finished("{\n"@ + entry(first.0, first.1) + entry(second.0, second.1))) == seq![
            '{',
        ] + dense_pair(first.0, first.1) + seq![','] + dense_pair(second.0, second.1) + seq!['}'],
{
    reveal_strlit("{\n");
    reveal_strlit("\n}");
    let brace = seq!['{'];
    let line = seq!['\n'];
    let close = seq!['}'];
    let one = entry(first.0, first.1);
    let two = entry(second.0, second.1);
    let cut = two.subrange(0, two.len() - 2);
    lemma_squeeze_entry(first.0, first.1);
    lemma_squeeze_entry(second.0, second.1);
    let json = "{\n"@ + one + two;
    let text = finished(json);
    assert(text =~= brace + line + one + cut + line + close);
    lemma_squeeze_solid(brace);
    lemma_squeeze_blank(line);
    lemma_squeeze_solid(close);
    lemma_squeeze_add(brace, line);
    lemma_squeeze_add(brace + line, one);
    lemma_squeeze_add(brace + line + one, cut);
    lemma_squeeze_add(brace + line + one + cut, line);
    lemma_squeeze_add(brace + line + one + cut + line, close);
    assert(squeeze(text) =~= brace + dense_pair(first.0, first.1) + seq![','] + dense_pair(
        second.0,
        second.1,
    ) + close);
}

/// A pair in its shortest form is read as its key and its value.
pub proof fn lemma_pair_of_dense(key: Seq<char>, value: Seq<char>)
    requires
        plain(key),
        plain(value),
    ensures
        pair_of(dense_pair(key, value)) == Some((key, value)),
        forall|i: int|
            0 <= i < dense_pair(key, value).len() ==> (#[trigger] dense_pair(key, value)[i])
                != ',',
{
    let a = quoted(key);
    let b = quoted(value);
    assert forall|i: int| 0 <= i < a.len() implies a[i] != ':' && a[i] != ',' by {
        if 0 < i < a.len() - 1 {
            assert(a[i] == key[i - 1]);
        }
    }
    assert forall|i: int| 0 <= i < b.len() implies b[i] != ':' && b[i] != ',' by {
        if 0 < i < b.len() - 1 {
            assert(b[i] == value[i - 1]);
        }
    }
    lemma_split_two(a, b, ':');
    assert(strip_outer(a) =~= key);
    assert(strip_outer(b) =~= value);
    let pair = dense_pair(key, value);
    assert forall|i: int| 0 <= i < pair.len() implies (#[trigger] pair[i]) != ',' by {
        if i < a.len() {
            assert(pair[i] == a[i]);
        } else if i > a.len() {
            assert(pair[i] == b[i - a.len() - 1]);
        }
    }
}

/// The labels of the component types are plain texts, and no two are the
/// same.
pub proof fn lemma_labels(kind: ComponentType)
    ensures
        plain(kind.label()),
        kind_of_label(kind.label()) == Some(kind),
{
    reveal_strlit("CircuitBreaker");
    reveal_strlit("Disconnector");
    reveal_strlit("EarthingSwitch");
    reveal_strlit("VoltageTransformer");
    reveal_strlit("Transformer");
    assert("CircuitBreaker"@.len() == 14);
    assert("Disconnector"@.len() == 12);
    assert("EarthingSwitch"@.len() == 14);
    assert("VoltageTransformer"@.len() == 18);
    assert("Transformer"@.len() == 11);
    assert("CircuitBreaker"@[0] != "EarthingSwitch"@[0]);
}

/// What was written of a component is read back as a new component of the
/// same name and type, where the name holds no white space, comma or colon.
pub proof fn law_json_reads_back(component: ComponentView)
    requires
        plain(component.name),
    ensures
        component_of(json_of(component)) == Ok::<ComponentView, JsonError>(
            ComponentView::fresh(component.kind, component.name),
        ),
{
    reveal_strlit("name");
    reveal_strlit("type");
    let name = component.name;
    let label = component.kind.label();
    lemma_labels(component.kind);
    assert(plain("name"@));
    assert(plain("type"@));
    lemma_squeeze_object(("name"@, name), ("type"@, label));
    let one = dense_pair("name"@, name);
    let two = dense_pair("type"@, label);
    lemma_pair_of_dense("name"@, name);
    lemma_pair_of_dense("type"@, label);
    let dense = squeeze(json_of(component));
    assert(strip_outer(dense) =~= one + seq![','] + two);
    lemma_split_two(one, two, ',');
    let items = items_of(json_of(component));
    assert(items == seq![one, two]);
    assert(items.drop_first() =~= seq![two]);
    assert(items.drop_first().drop_first() =~= Seq::<Seq<char>>::empty());
    reveal_with_fuel(absorb, 3);
    let keys = Map::<Seq<char>, Seq<char>>::empty().insert("name"@, name).insert("type"@, label);
    assert(absorb(Map::empty(), items) == (keys, true));
    assert("name"@ != "type"@) by {
        assert("name"@[0] != "type"@[0]);
    }
}

} // verus!
