//! Raw and processed script data: header information, events and
//! resources, plus the string map the info and macro sections fill.

use vstd::prelude::*;

use crate::chars::str_eq;
use crate::objects::EventObject;

verus! {

/// Projection the renderer works with.
#[derive(Debug, PartialEq, Eq, Structural, Clone, Copy)]
pub enum ViewKind {
    Perspective,
    Orthogonal,
}

impl ViewKind {
    /// The view a header value names.
    pub fn from_str(value: &str) -> (r: Result<ViewKind, ()>)
        ensures
            r == ViewKind::spec_from(value@),
    {
        if str_eq(value, "perspective") {
            Ok(ViewKind::Perspective)
        } else if str_eq(value, "orthogonal") {
            Ok(ViewKind::Orthogonal)
        } else {
            Err(())
        }
    }

    /// The view a header value names.
    pub fn try_from(value: &str) -> (r: Result<ViewKind, ()>)
        ensures
            r == ViewKind::spec_from(value@),
    {
        ViewKind::from_str(value)
    }

    /// Which view, if any, a header value names.
    pub open spec fn spec_from(value: Seq<char>) -> Result<ViewKind, ()> {
        if value == "perspective"@ {
            Ok(ViewKind::Perspective)
        } else if value == "orthogonal"@ {
            Ok(ViewKind::Orthogonal)
        } else {
            Err(())
        }
    }
}

/// Weight and slant of a font.
#[derive(Debug, PartialEq, Eq, Structural, Hash, Clone, Copy)]
pub enum FontStyle {
    Regular,
    Bold,
    Italic,
    BoldItalic,
}

impl FontStyle {
    /// The style a resource key names.
    pub fn from_str(value: &str) -> (r: Result<FontStyle, ()>)
        ensures
            r == FontStyle::spec_from(value@),
    {
        if str_eq(value, "regular") {
            Ok(FontStyle::Regular)
        } else if str_eq(value, "bold") {
            Ok(FontStyle::Bold)
        } else if str_eq(value, "italic") {
            Ok(FontStyle::Italic)
        } else if str_eq(value, "bold-italic") {
            Ok(FontStyle::BoldItalic)
        } else {
            Err(())
        }
    }

    /// The style a resource key names.
    pub fn try_from(value: &str) -> (r: Result<FontStyle, ()>)
        ensures
            r == FontStyle::spec_from(value@),
    {
        FontStyle::from_str(value)
    }

    /// Which style, if any, a resource key names.
    pub open spec fn spec_from(value: Seq<char>) -> Result<FontStyle, ()> {
        if value == "regular"@ {
            Ok(FontStyle::Regular)
        } else if value == "bold"@ {
            Ok(FontStyle::Bold)
        } else if value == "italic"@ {
            Ok(FontStyle::Italic)
        } else if value == "bold-italic"@ {
            Ok(FontStyle::BoldItalic)
        } else {
            Err(())
        }
    }
}

/// A font resource key: family name and style.
#[derive(Debug, PartialEq, Eq, Hash, Clone)]
pub struct FontFace {
    pub family: String,
    pub style: FontStyle,
}

/// The script name of a font style.
pub open spec fn style_name(style: FontStyle) -> Seq<char> {
    match style {
        FontStyle::Regular => "regular"@,
        FontStyle::Bold => "bold"@,
        FontStyle::Italic => "italic"@,
        FontStyle::BoldItalic => "bold-italic"@,
    }
}

impl FontFace {
    /// The face as text: the family name with the style in parentheses.
    pub fn label(&self) -> (r: String)
        ensures
            r@ == self.family@ + " ("@ + style_name(self.style) + ")"@,
    {
        let mut s = self.family.clone();
        s.append(" (");
        s.append(
            match self.style {
                FontStyle::Regular => "regular",
                FontStyle::Bold => "bold",
                FontStyle::Italic => "italic",
                FontStyle::BoldItalic => "bold-italic",
            },
        );
        s.append(")");
        s
    }
}

/// When an event is shown: on an explicit trigger id, or over a time
/// range in milliseconds.
#[derive(Debug)]
pub enum EventTrigger {
    Id(String),
    Time((u32, u32)),
}

/// One event of the script, its data still unparsed. The location is
/// the one-based script line and the character column where the data
/// field starts.
#[derive(Debug)]
pub struct Event {
    pub trigger: EventTrigger,
    pub macro_: Option<String>,
    pub note: Option<String>,
    pub data: String,
    pub data_location: (usize, usize),
}

/// One event with its data parsed into objects.
#[derive(Debug)]
pub struct EventRender {
    pub trigger: EventTrigger,
    pub objects: Vec<EventObject>,
}

/// Font file contents as the script carries them (encoded text).
pub type FontData = String;

/// Font file contents decoded for rendering.
pub type FontDataRender = Vec<u8>;

/// Name of a texture resource.
pub type TextureId = String;

/// Where a texture's data comes from.
#[derive(Debug, PartialEq, Clone)]
pub enum TextureData {
    Url(String),
    Raw(String),
}

/// Texture contents decoded for rendering.
pub type TextureDataRender = Vec<u8>;

/// First value bound to a key in an association sequence.
pub open spec fn assoc_get(s: Seq<(Seq<char>, Seq<char>)>, k: Seq<char>) -> Option<Seq<char>>
    decreases s.len(),
{
    if s.len() == 0 {
        None
    } else if s[0].0 == k {
        Some(s[0].1)
    } else {
        assoc_get(s.drop_first(), k)
    }
}

/// The association sequence with `k` bound to `v`: the first existing
/// binding is replaced in place, a missing key is appended.
pub open spec fn assoc_set(
    s: Seq<(Seq<char>, Seq<char>)>,
    k: Seq<char>,
    v: Seq<char>,
) -> Seq<(Seq<char>, Seq<char>)>
    decreases s.len(),
{
    if s.len() == 0 {
        seq![(k, v)]
    } else if s[0].0 == k {
        seq![(k, v)] + s.drop_first()
    } else {
        seq![s[0]] + assoc_set(s.drop_first(), k, v)
    }
}

/// A string-keyed map with insertion order kept, one binding per key.
#[derive(Debug, PartialEq, Clone)]
pub struct StrMap {
    entries: Vec<(String, String)>,
}

impl vstd::prelude::View for StrMap {
    type V = Seq<(Seq<char>, Seq<char>)>;

    closed spec fn view(&self) -> Seq<(Seq<char>, Seq<char>)> {
        self.entries@.map_values(|e: (String, String)| (e.0@, e.1@))
    }
}

proof fn lemma_assoc_set_found(
    s: Seq<(Seq<char>, Seq<char>)>,
    k: Seq<char>,
    v: Seq<char>,
    i: int,
)
    requires
        0 <= i < s.len(),
        forall|j: int| 0 <= j < i ==> (#[trigger] s[j]).0 != k,
        s[i].0 == k,
    ensures
        assoc_set(s, k, v) =~= s.update(i, (k, v)),
    decreases i,
{
    if i == 0 {
    } else {
        lemma_assoc_set_found(s.drop_first(), k, v, i - 1);
        assert(assoc_set(s, k, v) =~= seq![s[0]] + assoc_set(s.drop_first(), k, v));
        assert(seq![s[0]] + s.drop_first().update(i - 1, (k, v)) =~= s.update(i, (k, v)));
    }
}

proof fn lemma_assoc_set_missing(s: Seq<(Seq<char>, Seq<char>)>, k: Seq<char>, v: Seq<char>)
    requires
        forall|j: int| 0 <= j < s.len() ==> (#[trigger] s[j]).0 != k,
    ensures
        assoc_set(s, k, v) =~= s.push((k, v)),
    decreases s.len(),
{
    if s.len() == 0 {
    } else {
        lemma_assoc_set_missing(s.drop_first(), k, v);
        assert(seq![s[0]] + s.drop_first().push((k, v)) =~= s.push((k, v)));
    }
}

proof fn lemma_assoc_get_found(s: Seq<(Seq<char>, Seq<char>)>, k: Seq<char>, i: int)
    requires
        0 <= i < s.len(),
        forall|j: int| 0 <= j < i ==> (#[trigger] s[j]).0 != k,
        s[i].0 == k,
    ensures
        assoc_get(s, k) == Some(s[i].1),
    decreases i,
{
    if i == 0 {
    } else {
        lemma_assoc_get_found(s.drop_first(), k, i - 1);
    }
}

proof fn lemma_assoc_get_missing(s: Seq<(Seq<char>, Seq<char>)>, k: Seq<char>)
    requires
        forall|j: int| 0 <= j < s.len() ==> (#[trigger] s[j]).0 != k,
    ensures
        assoc_get(s, k) is None,
    decreases s.len(),
{
    if s.len() > 0 {
        lemma_assoc_get_missing(s.drop_first(), k);
    }
}

impl StrMap {
    /// Fresh empty map.
    pub fn new() -> (r: StrMap)
        ensures
            r@ == Seq::<(Seq<char>, Seq<char>)>::empty(),
    {
        StrMap { entries: Vec::new() }
    }

    /// Number of bindings.
    pub fn len(&self) -> (r: usize)
        ensures
            r == self@.len(),
    {
        self.entries.len()
    }

    /// Bind `key` to `value`, replacing an existing binding in place.
    pub fn insert(&mut self, key: String, value: String)
        ensures
            final(self)@ == assoc_set(old(self)@, key@, value@),
    {
        let mut i: usize = 0;
        while i < self.entries.len()
            invariant
                0 <= i <= self.entries@.len(),
                self@ == old(self)@,
                self@ == self.entries@.map_values(|e: (String, String)| (e.0@, e.1@)),
                self@.len() == self.entries@.len(),
                forall|j: int| 0 <= j < i ==> (#[trigger] self@[j]).0 != key@,
            decreases self.entries@.len() - i,
        {
            if str_eq(self.entries[i].0.as_str(), key.as_str()) {
                let ghost pre = self@;
                let e = &mut self.entries[i];
                e.1 = value;
                proof {
                    lemma_assoc_set_found(pre, key@, value@, i as int);
                    assert(self@ =~= pre.update(i as int, (key@, value@)));
                }
                return ;
            }
            i = i + 1;
        }
        let ghost pre = self@;
        self.entries.push((key, value));
        proof {
            lemma_assoc_set_missing(pre, key@, value@);
            assert(self@ =~= pre.push((key@, value@)));
        }
    }

    /// The value bound to `key`, if any.
    pub fn get(&self, key: &str) -> (r: Option<&String>)
        ensures
            match r {
                Some(v) => assoc_get(self@, key@) == Some(v@),
                None => assoc_get(self@, key@) is None,
            },
    {
        let mut i: usize = 0;
        while i < self.entries.len()
            invariant
                0 <= i <= self.entries@.len(),
                self@ == self.entries@.map_values(|e: (String, String)| (e.0@, e.1@)),
                self@.len() == self.entries@.len(),
                forall|j: int| 0 <= j < i ==> (#[trigger] self@[j]).0 != key@,
            decreases self.entries@.len() - i,
        {
            if str_eq(self.entries[i].0.as_str(), key) {
                proof {
                    lemma_assoc_get_found(self@, key@, i as int);
                }
                return Some(&self.entries[i].1);
            }
            i = i + 1;
        }
        proof {
            lemma_assoc_get_missing(self@, key@);
        }
        None
    }
}

/// Raw script data, as the parser fills it.
#[derive(Debug)]
pub struct Ssb {
    pub info_title: Option<String>,
    pub info_author: Option<String>,
    pub info_description: Option<String>,
    pub info_version: Option<String>,
    pub info_custom: StrMap,
    pub target_width: Option<u16>,
    pub target_height: Option<u16>,
    pub target_depth: u16,
    pub target_view: ViewKind,
    pub macros: StrMap,
    pub events: Vec<Event>,
    pub fonts: Vec<(FontFace, FontData)>,
    pub textures: Vec<(TextureId, TextureData)>,
}

impl Default for Ssb {
    /// Empty script data: no header values, a depth of one thousand, a
    /// perspective view, and no entries anywhere.
    fn default() -> (r: Self)
        ensures
            r.info_title is None,
            r.info_author is None,
            r.info_description is None,
            r.info_version is None,
            r.info_custom@ == Seq::<(Seq<char>, Seq<char>)>::empty(),
            r.target_width is None,
            r.target_height is None,
            r.target_depth == 1000,
            r.target_view == ViewKind::Perspective,
            r.macros@ == Seq::<(Seq<char>, Seq<char>)>::empty(),
            r.events@ == Seq::<Event>::empty(),
            r.fonts@ == Seq::<(FontFace, FontData)>::empty(),
            r.textures@ == Seq::<(TextureId, TextureData)>::empty(),
    {
        Self {
            info_title: None,
            info_author: None,
            info_description: None,
            info_version: None,
            info_custom: StrMap::new(),
            target_width: None,
            target_height: None,
            target_depth: 1000,
            target_view: ViewKind::Perspective,
            macros: StrMap::new(),
            events: Vec::new(),
            fonts: Vec::new(),
            textures: Vec::new(),
        }
    }
}

/// Processed script data, ready for rendering.
#[derive(Debug)]
pub struct SsbRender {
    pub target_width: Option<u16>,
    pub target_height: Option<u16>,
    pub target_depth: u16,
    pub target_view: ViewKind,
    pub events: Vec<EventRender>,
    pub fonts: Vec<(FontFace, FontDataRender)>,
    pub textures: Vec<(TextureId, TextureDataRender)>,
}

} // verus!
