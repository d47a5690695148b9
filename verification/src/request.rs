//! Requests to language models: messages, images and tool results.
use crate::json::{
    json_entries, json_i64, json_items, json_string, pair_views, parse_entries, parse_i64,
    parse_items, parse_json, parse_string, parsed_json, pretty_json, pretty_printed,
};
use crate::settings_content::SingleBits;
use crate::text::{
    byte_len_capped, is_blank, is_blank_str, lower_str, lowered, opt_text, str_eq, utf8_len, views,
};
use vstd::prelude::*;
use vstd::utf8::encode_utf8;

verus! {

/// The size of an image in pixels.
#[derive(Clone, Copy, Debug, PartialEq, Eq, Structural)]
pub struct ImageSize {
    pub width: i32,
    pub height: i32,
}

impl Default for ImageSize {
    fn default() -> (r: Self)
        ensures
            r.width == 0,
            r.height == 0,
    {
        ImageSize { width: 0, height: 0 }
    }
}

/// The type of an image of which nothing is said.
pub const DEFAULT_MIME_TYPE: &'static str = "image/png";

/// The tokens that an image of unknown size is taken to cost.
pub const UNKNOWN_IMAGE_TOKENS: u64 = 1_100;

/// An image that is sent to a model.
#[derive(Debug, PartialEq, Eq)]
pub struct LanguageModelImage {
    /// The encoded bytes in base64.
    pub source: String,
    /// Its size; nothing where that is not known.
    pub size: ImageSize,
    pub mime_type: String,
}

impl Clone for LanguageModelImage {
    fn clone(&self) -> (r: Self)
        ensures
            r == *self,
    {
        LanguageModelImage {
            source: self.source.clone(),
            size: self.size,
            mime_type: self.mime_type.clone(),
        }
    }
}

/// How many tiles cover so many pixels.
pub open spec fn tiles(pixels: int) -> int {
    (pixels + 511) / 512
}

/// What an image of this size is taken to cost: a little for itself, and more for each of the
/// tiles that cover it.
pub open spec fn image_tokens(size: ImageSize) -> int {
    if size.width <= 0 || size.height <= 0 {
        UNKNOWN_IMAGE_TOKENS as int
    } else {
        85 + 170 * tiles(size.width as int) * tiles(size.height as int)
    }
}

pub fn estimate_image_tokens(size: ImageSize) -> (r: u64)
    ensures
        r == image_tokens(size),
{
    if size.width <= 0 || size.height <= 0 {
        return UNKNOWN_IMAGE_TOKENS;
    }
    let x: u64 = (size.width as u64 + 511) / 512;
    let y: u64 = (size.height as u64 + 511) / 512;
    assert(x <= 0x40_0000 && y <= 0x40_0000);
    assert(170 * x * y <= 170 * 0x40_0000 * 0x40_0000) by (nonlinear_arith)
        requires
            x <= 0x40_0000,
            y <= 0x40_0000,
    ;
    assert(170 * x <= 170 * 0x40_0000);
    85 + 170 * x * y
}

/// A larger image costs no less.
pub proof fn lemma_larger_images_cost_no_less(a: ImageSize, b: ImageSize)
    requires
        0 < a.width <= b.width,
        0 < a.height <= b.height,
    ensures
        image_tokens(a) <= image_tokens(b),
{
    let (ax, ay) = (tiles(a.width as int), tiles(a.height as int));
    let (bx, by) = (tiles(b.width as int), tiles(b.height as int));
    assert(170 * ax * ay <= 170 * bx * by) by (nonlinear_arith)
        requires
            0 <= ax <= bx,
            0 <= ay <= by,
    ;
}

/// What is known of an image while its fields are read.
pub struct ImageFields {
    pub source: Option<Seq<char>>,
    pub width: Option<i32>,
    pub height: Option<i32>,
    pub mime_type: Option<Seq<char>>,
}

/// The number that a value denotes, cut to 32 bits.
pub open spec fn short_number(value: Seq<char>) -> Option<i32> {
    match json_i64(value) {
        Some(n) => Some(n as i32),
        None => None,
    }
}

/// Reads one field of a size.
pub open spec fn read_size_field(f: ImageFields, field: (Seq<char>, Seq<char>)) -> ImageFields {
    if lowered(field.0) == "width"@ {
        ImageFields { width: short_number(field.1), ..f }
    } else if lowered(field.0) == "height"@ {
        ImageFields { height: short_number(field.1), ..f }
    } else {
        f
    }
}

pub open spec fn read_size(f: ImageFields, fields: Seq<(Seq<char>, Seq<char>)>) -> ImageFields
    decreases fields.len(),
{
    if fields.len() == 0 {
        f
    } else {
        read_size_field(read_size(f, fields.drop_last()), fields.last())
    }
}

/// Reads one field of an image. Names count in any case.
pub open spec fn read_image_field(f: ImageFields, field: (Seq<char>, Seq<char>)) -> ImageFields {
    let name = lowered(field.0);
    if name == "source"@ {
        ImageFields { source: json_string(field.1), ..f }
    } else if name == "mime_type"@ || name == "mimetype"@ {
        ImageFields { mime_type: json_string(field.1), ..f }
    } else if name == "size"@ {
        match json_entries(field.1) {
            Some(size) => read_size(f, size),
            None => f,
        }
    } else {
        read_size_field(f, field)
    }
}

pub open spec fn read_image(fields: Seq<(Seq<char>, Seq<char>)>) -> ImageFields
    decreases fields.len(),
{
    if fields.len() == 0 {
        ImageFields { source: None, width: None, height: None, mime_type: None }
    } else {
        read_image_field(read_image(fields.drop_last()), fields.last())
    }
}

/// Whether `image` is what the fields make.
pub open spec fn is_image_of(image: LanguageModelImage, f: ImageFields) -> bool {
    &&& f.source == Some(image.source@)
    &&& image.size.width == match f.width {
        Some(w) => w,
        None => 0,
    }
    &&& image.size.height == match f.height {
        Some(h) => h,
        None => 0,
    }
    &&& image.mime_type@ == match f.mime_type {
        Some(m) => m,
        None => DEFAULT_MIME_TYPE@,
    }
}

/// What is known of an image while its fields are read.
struct ReadFields {
    source: Option<String>,
    width: Option<i32>,
    height: Option<i32>,
    mime_type: Option<String>,
}

impl ReadFields {
    spec fn fields(self) -> ImageFields {
        ImageFields {
            source: opt_text(self.source),
            width: self.width,
            height: self.height,
            mime_type: opt_text(self.mime_type),
        }
    }

    fn take_size_field(&mut self, name: &str, value: &str)
        ensures
            final(self).fields() == read_size_field(old(self).fields(), (name@, value@)),
    {
        let lower = lower_str(name);
        let number: Option<i32> = match parse_i64(value) {
            Some(n) => Some(#[verifier::truncate] (n as i32)),
            None => None,
        };
        if str_eq(lower.as_str(), "width") {
            self.width = number;
        } else if str_eq(lower.as_str(), "height") {
            self.height = number;
        }
    }

    fn take_size(&mut self, size: &Vec<(String, String)>)
        ensures
            final(self).fields() == read_size(old(self).fields(), pair_views(size@)),
    {
        let ghost before = self.fields();
        let ghost all = pair_views(size@);
        let mut i: usize = 0;
        assert(all.take(0) =~= Seq::<(Seq<char>, Seq<char>)>::empty());
        while i < size.len()
            invariant
                i <= size@.len(),
                all == pair_views(size@),
                self.fields() == read_size(before, all.take(i as int)),
            decreases size@.len() - i,
        {
            assert(all.take(i + 1).drop_last() =~= all.take(i as int));
            assert(all.take(i + 1).last() == (size@[i as int].0@, size@[i as int].1@));
            self.take_size_field(size[i].0.as_str(), size[i].1.as_str());
            i = i + 1;
        }
        assert(all.take(size@.len() as int) =~= all);
    }

    fn take_field(&mut self, name: &str, value: &str)
        ensures
            final(self).fields() == read_image_field(old(self).fields(), (name@, value@)),
    {
        let lower = lower_str(name);
        if str_eq(lower.as_str(), "source") {
            self.source = parse_string(value);
        } else if str_eq(lower.as_str(), "mime_type") || str_eq(lower.as_str(), "mimetype") {
            self.mime_type = parse_string(value);
        } else if str_eq(lower.as_str(), "size") {
            match parse_entries(value) {
                Some(size) => self.take_size(&size),
                None => {},
            }
        } else {
            self.take_size_field(name, value);
        }
    }
}

impl LanguageModelImage {
    /// How many bytes the source takes, as far as that can be counted.
    pub fn len(&self) -> (r: usize)
        ensures
            r == if utf8_len(self.source@) <= usize::MAX {
                utf8_len(self.source@)
            } else {
                usize::MAX as nat
            },
    {
        byte_len_capped(self.source.as_str(), usize::MAX)
    }

    pub fn is_empty(&self) -> (r: bool)
        ensures
            r == (self.source@.len() == 0),
    {
        self.source.as_str().is_empty()
    }

    /// No image at all.
    pub fn empty() -> (r: Self)
        ensures
            r.source@ == Seq::<char>::empty(),
            r.size == (ImageSize { width: 0, height: 0 }),
            r.mime_type@ == DEFAULT_MIME_TYPE@,
    {
        LanguageModelImage {
            source: String::new(),
            size: ImageSize { width: 0, height: 0 },
            mime_type: DEFAULT_MIME_TYPE.to_string(),
        }
    }

    /// An image of unknown size.
    pub fn from_source(source: String) -> (r: Self)
        ensures
            r.source == source,
            r.size == (ImageSize { width: 0, height: 0 }),
            r.mime_type@ == DEFAULT_MIME_TYPE@,
    {
        LanguageModelImage {
            source,
            size: ImageSize { width: 0, height: 0 },
            mime_type: DEFAULT_MIME_TYPE.to_string(),
        }
    }

    /// What the image is taken to cost.
    pub fn estimate_tokens(&self) -> (r: u64)
        ensures
            r == image_tokens(self.size),
    {
        estimate_image_tokens(self.size)
    }

    /// Reads an image from the fields of a JSON object, whose values are JSON again. Without a
    /// source there is none.
    pub fn from_json(fields: &Vec<(String, String)>) -> (r: Option<Self>)
        ensures
            match r {
                Some(image) => is_image_of(image, read_image(pair_views(fields@))),
                None => read_image(pair_views(fields@)).source is None,
            },
    {
        let ghost all = pair_views(fields@);
        let mut read = ReadFields { source: None, width: None, height: None, mime_type: None };
        let mut i: usize = 0;
        assert(all.take(0) =~= Seq::<(Seq<char>, Seq<char>)>::empty());
        while i < fields.len()
            invariant
                i <= fields@.len(),
                all == pair_views(fields@),
                read.fields() == read_image(all.take(i as int)),
            decreases fields@.len() - i,
        {
            assert(all.take(i + 1).drop_last() =~= all.take(i as int));
            assert(all.take(i + 1).last() == (fields@[i as int].0@, fields@[i as int].1@));
            read.take_field(fields[i].0.as_str(), fields[i].1.as_str());
            i = i + 1;
        }
        assert(all.take(fields@.len() as int) =~= all);
        let width: i32 = match read.width {
            Some(w) => w,
            None => 0,
        };
        let height: i32 = match read.height {
            Some(h) => h,
            None => 0,
        };
        let mime_type = match read.mime_type {
            Some(m) => m,
            None => DEFAULT_MIME_TYPE.to_string(),
        };
        match read.source {
            Some(source) => Some(
                LanguageModelImage { source, size: ImageSize { width, height }, mime_type },
            ),
            None => None,
        }
    }

    /// The image as a URL that holds it.
    pub fn to_base64_url(&self) -> (r: String)
        ensures
            r@ == "data:"@ + self.mime_type@ + ";base64,"@ + self.source@,
    {
        let mut r = "data:".to_string();
        r.append(self.mime_type.as_str());
        r.append(";base64,");
        r.append(self.source.as_str());
        r
    }
}

// ---------------------------------------------------------------------------
// Tool results
// ---------------------------------------------------------------------------

/// A part of what a tool gave.
#[derive(Debug, PartialEq, Eq)]
pub enum LanguageModelToolResultContent {
    Text(String),
    Image(LanguageModelImage),
}

/// The value of the first field with this name, in any case, at `i` or behind it.
pub open spec fn field_value(fields: Seq<(Seq<char>, Seq<char>)>, name: Seq<char>, i: int) -> Option<
    Seq<char>,
>
    decreases fields.len() - i,
{
    if i < 0 || i >= fields.len() {
        None
    } else if lowered(fields[i].0) == name {
        Some(fields[i].1)
    } else {
        field_value(fields, name, i + 1)
    }
}

fn find_field(fields: &Vec<(String, String)>, name: &str) -> (r: Option<String>)
    ensures
        opt_text(r) == field_value(pair_views(fields@), name@, 0),
{
    let ghost all = pair_views(fields@);
    let mut i: usize = 0;
    while i < fields.len()
        invariant
            i <= fields@.len(),
            all == pair_views(fields@),
            field_value(all, name@, i as int) == field_value(all, name@, 0),
        decreases fields@.len() - i,
    {
        assert(all[i as int] == (fields@[i as int].0@, fields@[i as int].1@));
        if str_eq(lower_str(fields[i].0.as_str()).as_str(), name) {
            return Some(fields[i].1.clone());
        }
        i = i + 1;
    }
    None
}

/// The text that fields say they hold: `{ "type": "text", "text": "..." }`.
pub open spec fn typed_text(fields: Seq<(Seq<char>, Seq<char>)>) -> Option<Seq<char>> {
    match (field_value(fields, "type"@, 0), field_value(fields, "text"@, 0)) {
        (Some(kind), Some(text)) => match json_string(kind) {
            Some(k) => if lowered(k) == "text"@ {
                json_string(text)
            } else {
                None
            },
            None => None,
        },
        _ => None,
    }
}

/// The text in a field of its own: `{ "text": "..." }`.
pub open spec fn lone_text(fields: Seq<(Seq<char>, Seq<char>)>) -> Option<Seq<char>> {
    if fields.len() == 1 {
        match field_value(fields, "text"@, 0) {
            Some(text) => json_string(text),
            None => None,
        }
    } else {
        None
    }
}

/// The image in a field of its own: `{ "image": { "source": "..." } }`.
pub open spec fn lone_image(fields: Seq<(Seq<char>, Seq<char>)>) -> Option<ImageFields> {
    if fields.len() == 1 {
        match field_value(fields, "image"@, 0) {
            Some(value) => match json_entries(value) {
                Some(image) => if read_image(image).source is Some {
                    Some(read_image(image))
                } else {
                    None
                },
                None => None,
            },
            None => None,
        }
    } else {
        None
    }
}

/// What a part of a result is read as.
pub enum PartView {
    Text(Seq<char>),
    Image(ImageFields),
}

/// What fields are read as, if they are anything.
pub open spec fn part_of_fields(fields: Seq<(Seq<char>, Seq<char>)>) -> Option<PartView> {
    match typed_text(fields) {
        Some(t) => Some(PartView::Text(t)),
        None => match lone_text(fields) {
            Some(t) => Some(PartView::Text(t)),
            None => match lone_image(fields) {
                Some(f) => Some(PartView::Image(f)),
                None => if read_image(fields).source is Some {
                    Some(PartView::Image(read_image(fields)))
                } else {
                    None
                },
            },
        },
    }
}

/// What a JSON value is read as, if it is anything.
pub open spec fn part_of(value: Seq<char>) -> Option<PartView> {
    match json_string(value) {
        Some(t) => Some(PartView::Text(t)),
        None => match json_entries(value) {
            Some(fields) => part_of_fields(fields),
            None => None,
        },
    }
}

/// What is said of a value that is nothing.
pub open spec fn mismatch(value: Seq<char>) -> Seq<char> {
    "data did not match any variant of LanguageModelToolResultContent. Expected either a string, an object with 'type': 'text', a wrapped variant like {\"Text\": \"...\"}, or an image object. Got: "@
        + match pretty_printed(encode_utf8(value)) {
        Some(p) => p,
        None => value,
    }
}

impl LanguageModelToolResultContent {
    /// Whether this is what a part of a result is read as.
    pub open spec fn is_part(self, p: PartView) -> bool {
        match p {
            PartView::Text(t) => self matches LanguageModelToolResultContent::Text(s) && s@ == t,
            PartView::Image(f) => self matches LanguageModelToolResultContent::Image(i)
                && is_image_of(i, f),
        }
    }

    pub fn to_str(&self) -> (r: Option<&str>)
        ensures
            match self {
                LanguageModelToolResultContent::Text(t) => r matches Some(s) && s@ == t@,
                LanguageModelToolResultContent::Image(_) => r is None,
            },
    {
        match self {
            LanguageModelToolResultContent::Text(t) => Some(t.as_str()),
            LanguageModelToolResultContent::Image(_) => None,
        }
    }

    pub open spec fn empty_part(self) -> bool {
        match self {
            LanguageModelToolResultContent::Text(t) => is_blank(t@),
            LanguageModelToolResultContent::Image(_) => false,
        }
    }

    /// Whether there is nothing in it. An image never is nothing.
    pub fn is_empty(&self) -> (r: bool)
        ensures
            r == self.empty_part(),
    {
        match self {
            LanguageModelToolResultContent::Text(t) => is_blank_str(t.as_str()),
            LanguageModelToolResultContent::Image(_) => false,
        }
    }

    fn from_fields(fields: &Vec<(String, String)>) -> (r: Option<Self>)
        ensures
            match part_of_fields(pair_views(fields@)) {
                Some(p) => r matches Some(c) && c.is_part(p),
                None => r is None,
            },
    {
        assert(pair_views(fields@).len() == fields@.len());
        let text = find_field(fields, "text");
        match (&find_field(fields, "type"), &text) {
            (Some(kind), Some(value)) => match parse_string(kind.as_str()) {
                Some(k) => {
                    if str_eq(lower_str(k.as_str()).as_str(), "text") {
                        match parse_string(value.as_str()) {
                            Some(t) => {
                                return Some(LanguageModelToolResultContent::Text(t));
                            },
                            None => {},
                        }
                    }
                },
                None => {},
            },
            _ => {},
        }
        if fields.len() == 1 {
            match &text {
                Some(value) => match parse_string(value.as_str()) {
                    Some(t) => {
                        return Some(LanguageModelToolResultContent::Text(t));
                    },
                    None => {},
                },
                None => {},
            }
            match find_field(fields, "image") {
                Some(value) => match parse_entries(value.as_str()) {
                    Some(image) => match LanguageModelImage::from_json(&image) {
                        Some(i) => {
                            return Some(LanguageModelToolResultContent::Image(i));
                        },
                        None => {},
                    },
                    None => {},
                },
                None => {},
            }
        }
        match LanguageModelImage::from_json(fields) {
            Some(i) => Some(LanguageModelToolResultContent::Image(i)),
            None => None,
        }
    }

    /// Reads a part of a result from a JSON value, in any of the forms that it may have.
    pub fn from_value(value: &str) -> (r: Result<Self, String>)
        ensures
            match part_of(value@) {
                Some(p) => r matches Ok(c) && c.is_part(p),
                None => r matches Err(e) && e@ == mismatch(value@),
            },
    {
        match parse_string(value) {
            Some(t) => {
                return Ok(LanguageModelToolResultContent::Text(t));
            },
            None => {},
        }
        match parse_entries(value) {
            Some(fields) => match Self::from_fields(&fields) {
                Some(c) => {
                    return Ok(c);
                },
                None => {},
            },
            None => {},
        }
        let mut e =
            "data did not match any variant of LanguageModelToolResultContent. Expected either a string, an object with 'type': 'text', a wrapped variant like {\"Text\": \"...\"}, or an image object. Got: ".to_string();
        match pretty_json(value.as_bytes()) {
            Some(p) => e.append(p.as_str()),
            None => e.append(value),
        }
        Err(e)
    }

    /// Reads a part of a result from JSON.
    pub fn from_json(text: &str) -> (r: Result<Self, String>)
        ensures
            match parsed_json(text@) {
                Err(e) => r matches Err(m) && m@ == e,
                Ok(value) => match part_of(value) {
                    Some(p) => r matches Ok(c) && c.is_part(p),
                    None => r matches Err(e) && e@ == mismatch(value),
                },
            },
    {
        match parse_json(text) {
            Ok(value) => Self::from_value(value.as_str()),
            Err(e) => Err(e),
        }
    }
}

/// What the values are read as, or why the first of them that is nothing is.
pub open spec fn parts_of(values: Seq<Seq<char>>) -> Result<Seq<PartView>, Seq<char>>
    decreases values.len(),
{
    if values.len() == 0 {
        Ok(Seq::empty())
    } else {
        match parts_of(values.drop_last()) {
            Err(e) => Err(e),
            Ok(before) => match part_of(values.last()) {
                Some(p) => Ok(before.push(p)),
                None => Err(mismatch(values.last())),
            },
        }
    }
}

/// What the content of a result is read as: several parts, or just the one.
pub open spec fn content_of(value: Seq<char>) -> Result<Seq<PartView>, Seq<char>> {
    match json_items(value) {
        Some(items) => parts_of(items),
        None => parts_of(seq![value]),
    }
}

/// Whether these are what the content of a result is read as.
pub open spec fn are_parts(content: Seq<LanguageModelToolResultContent>, p: Seq<PartView>) -> bool {
    &&& content.len() == p.len()
    &&& forall|i: int| 0 <= i < p.len() ==> (#[trigger] content[i]).is_part(p[i])
}

proof fn lemma_parts_refused(values: Seq<Seq<char>>, i: int)
    requires
        0 <= i <= values.len(),
        parts_of(values.take(i)) is Err,
    ensures
        parts_of(values) == parts_of(values.take(i)),
    decreases values.len() - i,
{
    if i < values.len() {
        assert(values.take(i + 1).drop_last() =~= values.take(i));
        lemma_parts_refused(values, i + 1);
    } else {
        assert(values.take(i) =~= values);
    }
}

pub fn read_parts(values: &Vec<String>) -> (r: Result<Vec<LanguageModelToolResultContent>, String>)
    ensures
        match parts_of(views(values@)) {
            Ok(p) => r matches Ok(c) && are_parts(c@, p),
            Err(e) => r matches Err(m) && m@ == e,
        },
{
    let ghost all = views(values@);
    let mut out: Vec<LanguageModelToolResultContent> = Vec::new();
    let ghost mut parts: Seq<PartView> = Seq::empty();
    let mut i: usize = 0;
    assert(all.take(0) =~= Seq::<Seq<char>>::empty());
    while i < values.len()
        invariant
            i <= values@.len(),
            all == views(values@),
            parts_of(all.take(i as int)) == Ok::<Seq<PartView>, Seq<char>>(parts),
            are_parts(out@, parts),
        decreases values@.len() - i,
    {
        assert(all.take(i + 1).drop_last() =~= all.take(i as int));
        assert(all.take(i + 1).last() == values@[i as int]@);
        match LanguageModelToolResultContent::from_value(values[i].as_str()) {
            Ok(c) => {
                proof {
                    parts = parts.push(part_of(values@[i as int]@)->0);
                }
                out.push(c);
            },
            Err(e) => {
                proof {
                    lemma_parts_refused(all, i + 1);
                }
                return Err(e);
            },
        }
        i = i + 1;
    }
    assert(all.take(values@.len() as int) =~= all);
    Ok(out)
}

/// Reads the content of a tool result from JSON: a list of parts, or the one part that stood
/// there before there were lists.
pub fn read_tool_result_content(text: &str) -> (r: Result<
    Vec<LanguageModelToolResultContent>,
    String,
>)
    ensures
        match parsed_json(text@) {
            Err(e) => r matches Err(m) && m@ == e,
            Ok(value) => match content_of(value) {
                Ok(p) => r matches Ok(c) && are_parts(c@, p),
                Err(e) => r matches Err(m) && m@ == e,
            },
        },
{
    let value = match parse_json(text) {
        Ok(v) => v,
        Err(e) => {
            return Err(e);
        },
    };
    match parse_items(value.as_str()) {
        Some(items) => read_parts(&items),
        None => {
            let one: Vec<String> = vec![value];
            assert(views(one@) =~= seq![value@]);
            read_parts(&one)
        },
    }
}

/// What a tool gave.
#[derive(Debug, PartialEq, Eq)]
pub struct LanguageModelToolResult {
    pub tool_use_id: String,
    pub tool_name: String,
    pub is_error: bool,
    pub content: Vec<LanguageModelToolResultContent>,
    /// What the tool itself gave, as JSON.
    pub output: Option<String>,
}

/// The texts among the parts, one behind the other.
pub open spec fn part_texts(parts: Seq<LanguageModelToolResultContent>) -> Seq<char>
    decreases parts.len(),
{
    if parts.len() == 0 {
        Seq::empty()
    } else {
        match parts.last() {
            LanguageModelToolResultContent::Text(t) => part_texts(parts.drop_last()) + t@,
            LanguageModelToolResultContent::Image(_) => part_texts(parts.drop_last()),
        }
    }
}

/// Whether there is nothing in any part.
pub open spec fn parts_empty(parts: Seq<LanguageModelToolResultContent>) -> bool {
    forall|i: int| 0 <= i < parts.len() ==> (#[trigger] parts[i]).empty_part()
}

impl LanguageModelToolResult {
    /// The texts among the parts, one behind the other.
    pub fn text_contents(&self) -> (r: String)
        ensures
            r@ == part_texts(self.content@),
    {
        let mut r = String::new();
        let mut i: usize = 0;
        assert(self.content@.take(0) =~= Seq::<LanguageModelToolResultContent>::empty());
        while i < self.content.len()
            invariant
                i <= self.content@.len(),
                r@ == part_texts(self.content@.take(i as int)),
            decreases self.content@.len() - i,
        {
            assert(self.content@.take(i + 1).drop_last() =~= self.content@.take(i as int));
            match &self.content[i] {
                LanguageModelToolResultContent::Text(t) => r.append(t.as_str()),
                LanguageModelToolResultContent::Image(_) => {},
            }
            i = i + 1;
        }
        assert(self.content@.take(self.content@.len() as int) =~= self.content@);
        r
    }

    /// Whether there is nothing in any part.
    pub fn is_content_empty(&self) -> (r: bool)
        ensures
            r == parts_empty(self.content@),
    {
        let mut i: usize = 0;
        while i < self.content.len()
            invariant
                i <= self.content@.len(),
                forall|j: int| 0 <= j < i ==> (#[trigger] self.content@[j]).empty_part(),
            decreases self.content@.len() - i,
        {
            if !self.content[i].is_empty() {
                return false;
            }
            i = i + 1;
        }
        true
    }
}

// ---------------------------------------------------------------------------
// Messages
// ---------------------------------------------------------------------------

/// A call of a tool that a model asks for.
#[derive(Debug, PartialEq, Eq)]
pub struct LanguageModelToolUse {
    pub id: String,
    pub name: String,
    /// What the model wrote.
    pub raw_input: String,
    /// The same, read as JSON.
    pub input: String,
    pub is_input_complete: bool,
    pub thought_signature: Option<String>,
}

/// Who a message is from.
#[derive(Debug, Clone, Copy, PartialEq, Eq, Structural)]
pub enum Role {
    User,
    Assistant,
    System,
}

/// A part of a message.
#[derive(Debug, PartialEq, Eq)]
pub enum MessageContent {
    Text(String),
    Thinking { text: String, signature: Option<String> },
    RedactedThinking(String),
    Image(LanguageModelImage),
    ToolUse(LanguageModelToolUse),
    ToolResult(LanguageModelToolResult),
}

impl MessageContent {
    pub open spec fn empty_content(self) -> bool {
        match self {
            MessageContent::Text(text) => is_blank(text@),
            MessageContent::Thinking { text, signature: _ } => is_blank(text@),
            MessageContent::ToolResult(result) => parts_empty(result.content@),
            MessageContent::RedactedThinking(_) => false,
            MessageContent::ToolUse(_) => false,
            MessageContent::Image(_) => false,
        }
    }

    /// Whether there is nothing in it.
    pub fn is_empty(&self) -> (r: bool)
        ensures
            r == self.empty_content(),
    {
        match self {
            MessageContent::Text(text) => is_blank_str(text.as_str()),
            MessageContent::Thinking { text, signature: _ } => is_blank_str(text.as_str()),
            MessageContent::ToolResult(result) => result.is_content_empty(),
            MessageContent::RedactedThinking(_) => false,
            MessageContent::ToolUse(_) => false,
            MessageContent::Image(_) => false,
        }
    }

    /// The text of the part.
    pub open spec fn text(self) -> Seq<char> {
        match self {
            MessageContent::Text(text) => text@,
            MessageContent::Thinking { text, signature: _ } => text@,
            MessageContent::ToolResult(result) => part_texts(result.content@),
            MessageContent::RedactedThinking(_) => Seq::empty(),
            MessageContent::ToolUse(_) => Seq::empty(),
            MessageContent::Image(_) => Seq::empty(),
        }
    }
}

/// A message.
#[derive(Debug, PartialEq, Eq)]
pub struct LanguageModelRequestMessage {
    pub role: Role,
    pub content: Vec<MessageContent>,
    pub cache: bool,
    /// What a provider wants to have back, as JSON.
    pub reasoning_details: Option<String>,
}

/// The texts of the parts, one behind the other.
pub open spec fn content_texts(content: Seq<MessageContent>) -> Seq<char>
    decreases content.len(),
{
    if content.len() == 0 {
        Seq::empty()
    } else {
        content_texts(content.drop_last()) + content.last().text()
    }
}

impl LanguageModelRequestMessage {
    /// The texts of the parts, one behind the other.
    pub fn string_contents(&self) -> (r: String)
        ensures
            r@ == content_texts(self.content@),
    {
        let mut r = String::new();
        let mut i: usize = 0;
        assert(self.content@.take(0) =~= Seq::<MessageContent>::empty());
        while i < self.content.len()
            invariant
                i <= self.content@.len(),
                r@ == content_texts(self.content@.take(i as int)),
            decreases self.content@.len() - i,
        {
            let ghost before = r@;
            assert(self.content@.take(i + 1).drop_last() =~= self.content@.take(i as int));
            assert(before + Seq::<char>::empty() =~= before);
            match &self.content[i] {
                MessageContent::Text(text) => r.append(text.as_str()),
                MessageContent::Thinking { text, signature: _ } => r.append(text.as_str()),
                MessageContent::ToolResult(result) => r.append(result.text_contents().as_str()),
                MessageContent::RedactedThinking(_) => {},
                MessageContent::ToolUse(_) => {},
                MessageContent::Image(_) => {},
            }
            i = i + 1;
        }
        assert(self.content@.take(self.content@.len() as int) =~= self.content@);
        r
    }

    /// Whether there is nothing in any part.
    pub fn contents_empty(&self) -> (r: bool)
        ensures
            r == forall|i: int|
                0 <= i < self.content@.len() ==> (#[trigger] self.content@[i]).empty_content(),
    {
        let mut i: usize = 0;
        while i < self.content.len()
            invariant
                i <= self.content@.len(),
                forall|j: int| 0 <= j < i ==> (#[trigger] self.content@[j]).empty_content(),
            decreases self.content@.len() - i,
        {
            if !self.content[i].is_empty() {
                return false;
            }
            i = i + 1;
        }
        true
    }
}

/// A tool that a model may call.
#[derive(Debug, PartialEq, Eq)]
pub struct LanguageModelRequestTool {
    pub name: String,
    pub description: String,
    /// The schema of its input, as JSON.
    pub input_schema: String,
    pub use_input_streaming: bool,
}

/// Which tools a model may call.
#[derive(Debug, Clone, Copy, PartialEq, Eq, Structural)]
pub enum LanguageModelToolChoice {
    Auto,
    Any,
    /// None of them.
    NoTool,
}

/// What a request is made for.
#[derive(Debug, Clone, Copy, PartialEq, Eq, PartialOrd, Ord, Hash)]
pub enum CompletionIntent {
    UserPrompt,
    Subagent,
    ToolResults,
    ThreadSummarization,
    ThreadContextSummarization,
    CreateFile,
    EditFile,
    InlineAssist,
    TerminalInlineAssist,
    GenerateGitCommitMessage,
}

/// A request to a model.
#[derive(Debug)]
pub struct LanguageModelRequest {
    pub thread_id: Option<String>,
    pub prompt_id: Option<String>,
    pub intent: Option<CompletionIntent>,
    pub messages: Vec<LanguageModelRequestMessage>,
    pub tools: Vec<LanguageModelRequestTool>,
    pub tool_choice: Option<LanguageModelToolChoice>,
    pub stop: Vec<String>,
    pub temperature: Option<SingleBits>,
    pub thinking_allowed: bool,
    pub thinking_effort: Option<String>,
    pub speed: Option<Speed>,
}

/// What a model answered.
#[derive(Debug, PartialEq, Eq)]
pub struct LanguageModelResponseMessage {
    pub role: Option<Role>,
    pub content: Option<String>,
}

/// How fast a model is to answer.
#[derive(Clone, Copy, Debug, PartialEq, Eq, Structural)]
pub enum Speed {
    Standard,
    Fast,
}

impl Default for Speed {
    fn default() -> (r: Self)
        ensures
            r == Speed::Standard,
    {
        Speed::Standard
    }
}

impl Speed {
    /// The other speed.
    pub fn toggle(self) -> (r: Self)
        ensures
            r == match self {
                Speed::Standard => Speed::Fast,
                Speed::Fast => Speed::Standard,
            },
    {
        match self {
            Speed::Standard => Speed::Fast,
            Speed::Fast => Speed::Standard,
        }
    }
}

/// A message in whose parts there is nothing has a blank text.
pub proof fn lemma_empty_messages_say_nothing(content: Seq<MessageContent>)
    requires
        forall|i: int| 0 <= i < content.len() ==> (#[trigger] content[i]).empty_content(),
    ensures
        is_blank(content_texts(content)),
    decreases content.len(),
{
    if content.len() > 0 {
        lemma_empty_messages_say_nothing(content.drop_last());
        let last = content.last();
        assert(content[content.len() - 1].empty_content());
        if let MessageContent::ToolResult(result) = last {
            lemma_empty_parts_say_nothing(result.content@);
        }
        lemma_blank_add(content_texts(content.drop_last()), last.text());
    }
}

proof fn lemma_empty_parts_say_nothing(parts: Seq<LanguageModelToolResultContent>)
    requires
        parts_empty(parts),
    ensures
        is_blank(part_texts(parts)),
    decreases parts.len(),
{
    if parts.len() > 0 {
        assert(parts_empty(parts.drop_last())) by {
            assert forall|i: int| 0 <= i < parts.len() - 1 implies (
            #[trigger] parts.drop_last()[i]).empty_part() by {
                assert(parts[i].empty_part());
            }
        }
        lemma_empty_parts_say_nothing(parts.drop_last());
        assert(parts[parts.len() - 1].empty_part());
        if let LanguageModelToolResultContent::Text(t) = parts.last() {
            lemma_blank_add(part_texts(parts.drop_last()), t@);
        }
    }
}

proof fn lemma_blank_add(a: Seq<char>, b: Seq<char>)
    requires
        is_blank(a),
        is_blank(b),
    ensures
        is_blank(a + b),
{
    let s = a + b;
    assert forall|i: int| 0 <= i < s.len() implies crate::text::is_ws(#[trigger] s[i]) by {
        if i < a.len() {
            assert(s[i] == a[i]);
        } else {
            assert(s[i] == b[i - a.len()]);
        }
    }
}

} // verus!
