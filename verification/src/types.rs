//! The data model: records (start and stop events), tags, projects, and the
//! colours they carry.

use vstd::prelude::*;

verus! {

broadcast use vstd::string::group_string_axioms;

/// Identifier of a record: the text of a version 7 UUID.
pub struct RecordId(pub String);

/// A tag, named by its identifier and display name.
pub struct TagId {
    pub id: String,
    pub name: String,
}

/// A project, named by its identifier and display name.
pub struct ProjectId {
    pub id: String,
    pub name: String,
}

/// An identifier paired with a display name, as character sequences.
pub struct IdV {
    pub id: Seq<char>,
    pub name: Seq<char>,
}

impl View for RecordId {
    type V = Seq<char>;

    open spec fn view(&self) -> Seq<char> {
        self.0@
    }
}

impl View for TagId {
    type V = IdV;

    open spec fn view(&self) -> IdV {
        IdV { id: self.id@, name: self.name@ }
    }
}

impl View for ProjectId {
    type V = IdV;

    open spec fn view(&self) -> IdV {
        IdV { id: self.id@, name: self.name@ }
    }
}

impl TagId {
    /// A copy of the tag identifier.
    pub fn duplicate(&self) -> (r: TagId)
        ensures
            r@ == self@,
    {
        TagId { id: self.id.clone(), name: self.name.clone() }
    }
}

impl ProjectId {
    /// A copy of the project identifier.
    pub fn duplicate(&self) -> (r: ProjectId)
        ensures
            r@ == self@,
    {
        ProjectId { id: self.id.clone(), name: self.name.clone() }
    }
}

/// The view of an optional string.
pub open spec fn opt_str_view(o: Option<String>) -> Option<Seq<char>> {
    match o {
        Some(s) => Some(s@),
        None => None,
    }
}

/// The views of a sequence of tag identifiers.
pub open spec fn tag_ids_view(s: Seq<TagId>) -> Seq<IdV> {
    s.map_values(|t: TagId| t@)
}

/// The view of an optional project identifier.
pub open spec fn opt_project_view(o: Option<ProjectId>) -> Option<IdV> {
    match o {
        Some(p) => Some(p@),
        None => None,
    }
}

/// An instant: whole seconds and nanoseconds since the Unix epoch, in UTC.
#[derive(Clone, Copy, PartialEq, Eq, Structural, Debug)]
pub struct Timestamp {
    pub secs: i64,
    pub nanos: u32,
}

/// A calendar day: the number of days since 1970-01-01.
#[derive(Clone, Copy, PartialEq, Eq, Structural, Debug)]
pub struct Date {
    pub days: i64,
}

/// Seconds in a day of Unix time.
pub const SECS_PER_DAY: i64 = 86400;

impl Timestamp {
    /// The UTC day on which the instant falls.
    pub open spec fn spec_day(self) -> int {
        self.secs as int / 86400
    }

    /// The UTC day on which the instant falls.
    pub fn utc_date(&self) -> (d: Date)
        ensures
            d.days == self.spec_day(),
    {
        let s = self.secs;
        if s >= 0 {
            let q = (s as u64) / 86400;
            proof {
                assert(q as int == (s as int) / 86400);
            }
            Date { days: q as i64 }
        } else {
            // Unix days are the floor of the quotient; for s < 0 write s = -t - 1.
            let t = (-(s + 1)) as u64;
            let q = t / 86400;
            proof {
                lemma_floor_div_negative(t as int, q as int);
            }
            Date { days: -(q as i64) - 1 }
        }
    }

    /// Milliseconds since the epoch.
    pub open spec fn spec_millis(self) -> int {
        self.secs * 1000 + self.nanos / 1_000_000
    }

    /// Milliseconds since the epoch, where they fit in an `i64`.
    pub fn millis(&self) -> (m: i64)
        requires
            i64::MIN <= self.spec_millis() <= i64::MAX,
        ensures
            m == self.spec_millis(),
    {
        let v: i128 = (self.secs as i128) * 1000 + ((self.nanos / 1_000_000) as i128);
        v as i64
    }
}

impl Date {
    /// Midnight (UTC) at the start of the day, if it can be expressed.
    pub fn midnight(&self) -> (t: Option<Timestamp>)
        ensures
            match t {
                Some(t) => t.secs == self.days * 86400 && t.nanos == 0,
                None => !(i64::MIN <= self.days * 86400 <= i64::MAX),
            },
    {
        match self.days.checked_mul(SECS_PER_DAY) {
            Some(s) => Some(Timestamp { secs: s, nanos: 0 }),
            None => None,
        }
    }
}

/// For t >= 0, the floor of (-t - 1) / 86400 is -(t / 86400) - 1.
proof fn lemma_floor_div_negative(t: int, q: int)
    requires
        t >= 0,
        q == t / 86400,
    ensures
        (-t - 1) / 86400 == -q - 1,
{
    let r = t % 86400;
    assert(t == q * 86400 + r && 0 <= r < 86400) by (nonlinear_arith)
        requires
            t >= 0,
            q == t / 86400,
            r == t % 86400,
    ;
    assert((-t - 1) == (-q - 1) * 86400 + (86400 - 1 - r)) by (nonlinear_arith)
        requires
            t == q * 86400 + r,
    ;
    assert((-t - 1) / 86400 == -q - 1) by (nonlinear_arith)
        requires
            (-t - 1) == (-q - 1) * 86400 + (86400 - 1 - r),
            0 <= 86400 - 1 - r < 86400,
    ;
}

/// The UTC day of midnight of a day is that day.
pub proof fn lemma_midnight_day(d: Date, t: Timestamp)
    requires
        t.secs == d.days * 86400,
    ensures
        t.spec_day() == d.days,
{
    assert((d.days * 86400) / 86400 == d.days) by (nonlinear_arith);
}

/// What a record says happened at its start.
pub enum Event {
    /// Tracking of an activity starts.
    Active { name: String, tags: Vec<TagId>, project: Option<ProjectId> },
    /// Tracking stops.
    Inactive { name: Option<String> },
}

pub enum EventV {
    Active { name: Seq<char>, tags: Seq<IdV>, project: Option<IdV> },
    Inactive { name: Option<Seq<char>> },
}

impl View for Event {
    type V = EventV;

    open spec fn view(&self) -> EventV {
        match self {
            Event::Active { name, tags, project } => EventV::Active {
                name: name@,
                tags: tag_ids_view(tags@),
                project: opt_project_view(*project),
            },
            Event::Inactive { name } => EventV::Inactive { name: opt_str_view(*name) },
        }
    }
}

/// A record: an event and the instant at which it starts. A record lasts
/// until the next record starts.
pub struct Record {
    pub id: RecordId,
    pub start: Timestamp,
    pub event: Event,
    pub body: Option<String>,
}

pub struct RecordV {
    pub id: Seq<char>,
    pub start: Timestamp,
    pub event: EventV,
    pub body: Option<Seq<char>>,
}

impl View for Record {
    type V = RecordV;

    open spec fn view(&self) -> RecordV {
        RecordV { id: self.id@, start: self.start, event: self.event@, body: opt_str_view(self.body) }
    }
}

/// The twelve colours of the palette.
#[derive(Clone, Copy, PartialEq, Eq, Structural, Debug)]
pub enum Colorscheme {
    Strawberry,
    Orange,
    Lemon,
    Leaf,
    Mint,
    Sky,
    Blueberry,
    Grape,
    Plum,
    Lavender,
    Lilac,
    Pink,
}

/// Light or dark display.
#[derive(Clone, Copy, PartialEq, Eq, Structural, Debug)]
pub enum Mode {
    Light,
    Dark,
}

impl Colorscheme {
    /// The lowercase name of the colour, as it is displayed and written in
    /// files ("strawberry", "orange", ...).
    pub open spec fn name_spec(self) -> Seq<char> {
        match self {
            Colorscheme::Strawberry => "strawberry"@,
            Colorscheme::Orange => "orange"@,
            Colorscheme::Lemon => "lemon"@,
            Colorscheme::Leaf => "leaf"@,
            Colorscheme::Mint => "mint"@,
            Colorscheme::Sky => "sky"@,
            Colorscheme::Blueberry => "blueberry"@,
            Colorscheme::Grape => "grape"@,
            Colorscheme::Plum => "plum"@,
            Colorscheme::Lavender => "lavender"@,
            Colorscheme::Lilac => "lilac"@,
            Colorscheme::Pink => "pink"@,
        }
    }

    /// The name of the variant as it stands in JSON ("Strawberry", ...).
    pub open spec fn json_name_spec(self) -> Seq<char> {
        match self {
            Colorscheme::Strawberry => "Strawberry"@,
            Colorscheme::Orange => "Orange"@,
            Colorscheme::Lemon => "Lemon"@,
            Colorscheme::Leaf => "Leaf"@,
            Colorscheme::Mint => "Mint"@,
            Colorscheme::Sky => "Sky"@,
            Colorscheme::Blueberry => "Blueberry"@,
            Colorscheme::Grape => "Grape"@,
            Colorscheme::Plum => "Plum"@,
            Colorscheme::Lavender => "Lavender"@,
            Colorscheme::Lilac => "Lilac"@,
            Colorscheme::Pink => "Pink"@,
        }
    }

    /// The hex code of the colour; both modes use the same code.
    pub open spec fn hex_spec(self) -> Seq<char> {
        match self {
            Colorscheme::Strawberry => "#cf8282"@,
            Colorscheme::Orange => "#d4a266"@,
            Colorscheme::Lemon => "#e3cd7f"@,
            Colorscheme::Leaf => "#9ccc96"@,
            Colorscheme::Mint => "#99cfac"@,
            Colorscheme::Sky => "#90cdde"@,
            Colorscheme::Blueberry => "#9bb0de"@,
            Colorscheme::Grape => "#9b98d6"@,
            Colorscheme::Plum => "#aa99d1"@,
            Colorscheme::Lavender => "#cca3d6"@,
            Colorscheme::Lilac => "#dbb4d3"@,
            Colorscheme::Pink => "#edb7ca"@,
        }
    }

    /// The position of the colour in the palette.
    pub open spec fn index_spec(self) -> int {
        match self {
            Colorscheme::Strawberry => 0,
            Colorscheme::Orange => 1,
            Colorscheme::Lemon => 2,
            Colorscheme::Leaf => 3,
            Colorscheme::Mint => 4,
            Colorscheme::Sky => 5,
            Colorscheme::Blueberry => 6,
            Colorscheme::Grape => 7,
            Colorscheme::Plum => 8,
            Colorscheme::Lavender => 9,
            Colorscheme::Lilac => 10,
            Colorscheme::Pink => 11,
        }
    }

    /// The hex code of the colour in the given mode.
    pub fn hex(&self, mode: &Mode) -> (h: &'static str)
        ensures
            h@ == self.hex_spec(),
    {
        match (self, mode) {
            (Colorscheme::Strawberry, Mode::Light) => "#cf8282",
            (Colorscheme::Strawberry, Mode::Dark) => "#cf8282",
            (Colorscheme::Orange, Mode::Light) => "#d4a266",
            (Colorscheme::Orange, Mode::Dark) => "#d4a266",
            (Colorscheme::Lemon, Mode::Light) => "#e3cd7f",
            (Colorscheme::Lemon, Mode::Dark) => "#e3cd7f",
            (Colorscheme::Leaf, Mode::Light) => "#9ccc96",
            (Colorscheme::Leaf, Mode::Dark) => "#9ccc96",
            (Colorscheme::Mint, Mode::Light) => "#99cfac",
            (Colorscheme::Mint, Mode::Dark) => "#99cfac",
            (Colorscheme::Sky, Mode::Light) => "#90cdde",
            (Colorscheme::Sky, Mode::Dark) => "#90cdde",
            (Colorscheme::Blueberry, Mode::Light) => "#9bb0de",
            (Colorscheme::Blueberry, Mode::Dark) => "#9bb0de",
            (Colorscheme::Grape, Mode::Light) => "#9b98d6",
            (Colorscheme::Grape, Mode::Dark) => "#9b98d6",
            (Colorscheme::Plum, Mode::Light) => "#aa99d1",
            (Colorscheme::Plum, Mode::Dark) => "#aa99d1",
            (Colorscheme::Lavender, Mode::Light) => "#cca3d6",
            (Colorscheme::Lavender, Mode::Dark) => "#cca3d6",
            (Colorscheme::Lilac, Mode::Light) => "#dbb4d3",
            (Colorscheme::Lilac, Mode::Dark) => "#dbb4d3",
            (Colorscheme::Pink, Mode::Light) => "#edb7ca",
            (Colorscheme::Pink, Mode::Dark) => "#edb7ca",
        }
    }

    /// The lowercase name of the colour.
    pub fn name(&self) -> (s: &'static str)
        ensures
            s@ == self.name_spec(),
    {
        match self {
            Colorscheme::Strawberry => "strawberry",
            Colorscheme::Orange => "orange",
            Colorscheme::Lemon => "lemon",
            Colorscheme::Leaf => "leaf",
            Colorscheme::Mint => "mint",
            Colorscheme::Sky => "sky",
            Colorscheme::Blueberry => "blueberry",
            Colorscheme::Grape => "grape",
            Colorscheme::Plum => "plum",
            Colorscheme::Lavender => "lavender",
            Colorscheme::Lilac => "lilac",
            Colorscheme::Pink => "pink",
        }
    }

    /// The name of the variant as it stands in JSON.
    pub fn json_name(&self) -> (s: &'static str)
        ensures
            s@ == self.json_name_spec(),
    {
        match self {
            Colorscheme::Strawberry => "Strawberry",
            Colorscheme::Orange => "Orange",
            Colorscheme::Lemon => "Lemon",
            Colorscheme::Leaf => "Leaf",
            Colorscheme::Mint => "Mint",
            Colorscheme::Sky => "Sky",
            Colorscheme::Blueberry => "Blueberry",
            Colorscheme::Grape => "Grape",
            Colorscheme::Plum => "Plum",
            Colorscheme::Lavender => "Lavender",
            Colorscheme::Lilac => "Lilac",
            Colorscheme::Pink => "Pink",
        }
    }

    /// The colour at a position of the palette.
    pub fn at_index(i: usize) -> (c: Colorscheme)
        requires
            i < 12,
        ensures
            c.index_spec() == i,
    {
        match i {
            0 => Colorscheme::Strawberry,
            1 => Colorscheme::Orange,
            2 => Colorscheme::Lemon,
            3 => Colorscheme::Leaf,
            4 => Colorscheme::Mint,
            5 => Colorscheme::Sky,
            6 => Colorscheme::Blueberry,
            7 => Colorscheme::Grape,
            8 => Colorscheme::Plum,
            9 => Colorscheme::Lavender,
            10 => Colorscheme::Lilac,
            _ => Colorscheme::Pink,
        }
    }

    /// All colours, in palette order.
    pub fn all() -> (v: Vec<Colorscheme>)
        ensures
            v@.len() == 12,
            forall|i: int| 0 <= i < 12 ==> (#[trigger] v@[i]).index_spec() == i,
    {
        let mut v: Vec<Colorscheme> = Vec::new();
        let mut i: usize = 0;
        while i < 12
            invariant
                i <= 12,
                v@.len() == i,
                forall|j: int| 0 <= j < i ==> (#[trigger] v@[j]).index_spec() == j,
            decreases 12 - i,
        {
            v.push(Colorscheme::at_index(i));
            i = i + 1;
        }
        v
    }
}

/// The colour whose lowercase name is `s`.
pub open spec fn color_named(s: Seq<char>) -> Option<Colorscheme> {
    if s == "strawberry"@ {
        Some(Colorscheme::Strawberry)
    } else if s == "orange"@ {
        Some(Colorscheme::Orange)
    } else if s == "lemon"@ {
        Some(Colorscheme::Lemon)
    } else if s == "leaf"@ {
        Some(Colorscheme::Leaf)
    } else if s == "mint"@ {
        Some(Colorscheme::Mint)
    } else if s == "sky"@ {
        Some(Colorscheme::Sky)
    } else if s == "blueberry"@ {
        Some(Colorscheme::Blueberry)
    } else if s == "grape"@ {
        Some(Colorscheme::Grape)
    } else if s == "plum"@ {
        Some(Colorscheme::Plum)
    } else if s == "lavender"@ {
        Some(Colorscheme::Lavender)
    } else if s == "lilac"@ {
        Some(Colorscheme::Lilac)
    } else if s == "pink"@ {
        Some(Colorscheme::Pink)
    } else {
        None
    }
}

/// The colour whose JSON variant name is `s`.
pub open spec fn color_json_named(s: Seq<char>) -> Option<Colorscheme> {
    if s == "Strawberry"@ {
        Some(Colorscheme::Strawberry)
    } else if s == "Orange"@ {
        Some(Colorscheme::Orange)
    } else if s == "Lemon"@ {
        Some(Colorscheme::Lemon)
    } else if s == "Leaf"@ {
        Some(Colorscheme::Leaf)
    } else if s == "Mint"@ {
        Some(Colorscheme::Mint)
    } else if s == "Sky"@ {
        Some(Colorscheme::Sky)
    } else if s == "Blueberry"@ {
        Some(Colorscheme::Blueberry)
    } else if s == "Grape"@ {
        Some(Colorscheme::Grape)
    } else if s == "Plum"@ {
        Some(Colorscheme::Plum)
    } else if s == "Lavender"@ {
        Some(Colorscheme::Lavender)
    } else if s == "Lilac"@ {
        Some(Colorscheme::Lilac)
    } else if s == "Pink"@ {
        Some(Colorscheme::Pink)
    } else {
        None
    }
}

/// A colour is found again from its name, and only from it.
pub proof fn lemma_color_named(s: Seq<char>, c: Colorscheme)
    ensures
        color_named(s) == Some(c) <==> c.name_spec() == s,
        color_json_named(s) == Some(c) <==> c.json_name_spec() == s,
{
    reveal_strlit("strawberry");
    reveal_strlit("orange");
    reveal_strlit("lemon");
    reveal_strlit("leaf");
    reveal_strlit("mint");
    reveal_strlit("sky");
    reveal_strlit("blueberry");
    reveal_strlit("grape");
    reveal_strlit("plum");
    reveal_strlit("lavender");
    reveal_strlit("lilac");
    reveal_strlit("pink");
    reveal_strlit("Strawberry");
    reveal_strlit("Orange");
    reveal_strlit("Lemon");
    reveal_strlit("Leaf");
    reveal_strlit("Mint");
    reveal_strlit("Sky");
    reveal_strlit("Blueberry");
    reveal_strlit("Grape");
    reveal_strlit("Plum");
    reveal_strlit("Lavender");
    reveal_strlit("Lilac");
    reveal_strlit("Pink");
    assert("strawberry"@[0] == 's' && "orange"@[0] == 'o' && "lemon"@[1] == 'e' && "leaf"@[1] == 'e');
    assert("mint"@[0] == 'm' && "sky"@[0] == 's' && "blueberry"@[0] == 'b' && "grape"@[0] == 'g');
    assert("plum"@[1] == 'l' && "Plum"@[1] == 'l');
    assert("strawberry"@.len() == 10 && "Strawberry"@.len() == 10);
    assert("orange"@.len() == 6 && "Orange"@.len() == 6);
    assert("lemon"@.len() == 5 && "Lemon"@.len() == 5);
    assert("leaf"@.len() == 4 && "Leaf"@.len() == 4);
    assert("mint"@.len() == 4 && "Mint"@.len() == 4);
    assert("sky"@.len() == 3 && "Sky"@.len() == 3);
    assert("blueberry"@.len() == 9 && "Blueberry"@.len() == 9);
    assert("grape"@.len() == 5 && "Grape"@.len() == 5);
    assert("plum"@.len() == 4 && "Plum"@.len() == 4);
    assert("lavender"@.len() == 8 && "Lavender"@.len() == 8);
    assert("lilac"@.len() == 5 && "Lilac"@.len() == 5);
    assert("pink"@.len() == 4 && "Pink"@.len() == 4);
    assert("plum"@[0] == 'p' && "lavender"@[0] == 'l' && "lilac"@[1] == 'i' && "pink"@[1] == 'i');
    assert("lemon"@[0] == 'l' && "leaf"@[0] == 'l' && "lilac"@[0] == 'l' && "pink"@[0] == 'p');
    assert("Strawberry"@[0] == 'S' && "Orange"@[0] == 'O' && "Lemon"@[1] == 'e' && "Leaf"@[1] == 'e');
    assert("Mint"@[0] == 'M' && "Sky"@[0] == 'S' && "Blueberry"@[0] == 'B' && "Grape"@[0] == 'G');
    assert("Plum"@[0] == 'P' && "Lavender"@[0] == 'L' && "Lilac"@[1] == 'i' && "Pink"@[1] == 'i');
    assert("Lemon"@[0] == 'L' && "Leaf"@[0] == 'L' && "Lilac"@[0] == 'L' && "Pink"@[0] == 'P');
    match c {
        Colorscheme::Strawberry => {
            assert(s == "strawberry"@ ==> color_named(s) == Some(Colorscheme::Strawberry));
            assert(s == "Strawberry"@ ==> color_json_named(s) == Some(Colorscheme::Strawberry));
        },
        Colorscheme::Orange => {
            assert(s == "orange"@ ==> color_named(s) == Some(Colorscheme::Orange));
            assert(s == "Orange"@ ==> color_json_named(s) == Some(Colorscheme::Orange));
        },
        Colorscheme::Lemon => {
            assert(s == "lemon"@ ==> color_named(s) == Some(Colorscheme::Lemon));
            assert(s == "Lemon"@ ==> color_json_named(s) == Some(Colorscheme::Lemon));
        },
        Colorscheme::Leaf => {
            assert(s == "leaf"@ ==> color_named(s) == Some(Colorscheme::Leaf));
            assert(s == "Leaf"@ ==> color_json_named(s) == Some(Colorscheme::Leaf));
        },
        Colorscheme::Mint => {
            assert(s == "mint"@ ==> color_named(s) == Some(Colorscheme::Mint));
            assert(s == "Mint"@ ==> color_json_named(s) == Some(Colorscheme::Mint));
        },
        Colorscheme::Sky => {
            assert(s == "sky"@ ==> color_named(s) == Some(Colorscheme::Sky));
            assert(s == "Sky"@ ==> color_json_named(s) == Some(Colorscheme::Sky));
        },
        Colorscheme::Blueberry => {
            assert(s == "blueberry"@ ==> color_named(s) == Some(Colorscheme::Blueberry));
            assert(s == "Blueberry"@ ==> color_json_named(s) == Some(Colorscheme::Blueberry));
        },
        Colorscheme::Grape => {
            assert(s == "grape"@ ==> color_named(s) == Some(Colorscheme::Grape));
            assert(s == "Grape"@ ==> color_json_named(s) == Some(Colorscheme::Grape));
        },
        Colorscheme::Plum => {
            assert(s == "plum"@ ==> color_named(s) == Some(Colorscheme::Plum));
            assert(s == "Plum"@ ==> color_json_named(s) == Some(Colorscheme::Plum));
        },
        Colorscheme::Lavender => {
            assert(s == "lavender"@ ==> color_named(s) == Some(Colorscheme::Lavender));
            assert(s == "Lavender"@ ==> color_json_named(s) == Some(Colorscheme::Lavender));
        },
        Colorscheme::Lilac => {
            assert(s == "lilac"@ ==> color_named(s) == Some(Colorscheme::Lilac));
            assert(s == "Lilac"@ ==> color_json_named(s) == Some(Colorscheme::Lilac));
        },
        Colorscheme::Pink => {
            assert(s == "pink"@ ==> color_named(s) == Some(Colorscheme::Pink));
            assert(s == "Pink"@ ==> color_json_named(s) == Some(Colorscheme::Pink));
        },
    }
}

impl Colorscheme {
    /// The colour with the given lowercase name.
    pub fn from_name(s: &str) -> (r: Option<Colorscheme>)
        ensures
            r == color_named(s@),
    {
        let all = Colorscheme::all();
        let target = s.to_string();
        let mut i: usize = 0;
        while i < 12
            invariant
                i <= 12,
                all@.len() == 12,
                target@ == s@,
                forall|j: int| 0 <= j < 12 ==> (#[trigger] all@[j]).index_spec() == j,
                forall|j: int| 0 <= j < i ==> (#[trigger] all@[j]).name_spec() != s@,
            decreases 12 - i,
        {
            let c = all[i];
            if c.name().to_string() == target {
                proof {
                    lemma_color_named(s@, c);
                }
                return Some(c);
            }
            i = i + 1;
        }
        proof {
            if color_named(s@) is Some {
                let c = color_named(s@)->0;
                lemma_color_named(s@, c);
                assert(all@[c.index_spec()] == c);
            }
        }
        None
    }

    /// The colour with the given JSON variant name.
    pub fn from_json_name(s: &str) -> (r: Option<Colorscheme>)
        ensures
            r == color_json_named(s@),
    {
        let all = Colorscheme::all();
        let target = s.to_string();
        let mut i: usize = 0;
        while i < 12
            invariant
                i <= 12,
                all@.len() == 12,
                target@ == s@,
                forall|j: int| 0 <= j < 12 ==> (#[trigger] all@[j]).index_spec() == j,
                forall|j: int| 0 <= j < i ==> (#[trigger] all@[j]).json_name_spec() != s@,
            decreases 12 - i,
        {
            let c = all[i];
            if c.json_name().to_string() == target {
                proof {
                    lemma_color_named(s@, c);
                }
                return Some(c);
            }
            i = i + 1;
        }
        proof {
            if color_json_named(s@) is Some {
                let c = color_json_named(s@)->0;
                lemma_color_named(s@, c);
                assert(all@[c.index_spec()] == c);
            }
        }
        None
    }
}

/// A colour of a tag or project: the text that names it, as the documents
/// hold it. The colours that the program defines are the palette's lowercase
/// names; a document may carry any other text, which is kept as it is.
#[derive(Clone, PartialEq, Eq, Debug)]
pub struct Color(pub String);

impl Color {
    /// The colour that names a palette entry.
    pub fn of(c: Colorscheme) -> (r: Color)
        ensures
            r.0@ == c.name_spec(),
    {
        Color(c.name().to_string())
    }

    /// The palette entry that the colour names, if it names one.
    pub fn scheme(&self) -> (r: Option<Colorscheme>)
        ensures
            r == color_named(self.0@),
    {
        Colorscheme::from_name(self.0.as_str())
    }

    /// The name of the colour.
    pub fn as_str(&self) -> (s: String)
        ensures
            s@ == self.0@,
    {
        self.0.clone()
    }
}

/// The names of a sequence of colours.
pub open spec fn colors_view(s: Seq<Color>) -> Seq<Seq<char>> {
    s.map_values(|c: Color| c.0@)
}

/// A tag: a name with colours that records can carry.
pub struct Tag {
    pub id: String,
    pub name: String,
    pub color: Vec<Color>,
}

pub struct TagV {
    pub id: Seq<char>,
    pub name: Seq<char>,
    pub color: Seq<Seq<char>>,
}

impl View for Tag {
    type V = TagV;

    open spec fn view(&self) -> TagV {
        TagV { id: self.id@, name: self.name@, color: colors_view(self.color@) }
    }
}

/// Whether a project is still going on.
#[derive(Clone, Copy, PartialEq, Eq, Structural, Debug)]
pub enum ProjectState {
    Active,
    Done { completed_date: Date },
}

/// A project that records can belong to.
pub struct Project {
    pub id: String,
    pub name: String,
    pub state: ProjectState,
    pub color: Vec<Color>,
    pub body: Option<String>,
}

pub struct ProjectV {
    pub id: Seq<char>,
    pub name: Seq<char>,
    pub state: ProjectState,
    pub color: Seq<Seq<char>>,
    pub body: Option<Seq<char>>,
}

impl View for Project {
    type V = ProjectV;

    open spec fn view(&self) -> ProjectV {
        ProjectV {
            id: self.id@,
            name: self.name@,
            state: self.state,
            color: colors_view(self.color@),
            body: opt_str_view(self.body),
        }
    }
}

/// The metadata of a file from which its fingerprint is computed.
#[derive(Hash)]
pub struct Fingerprint {
    pub size: u64,
    pub mtime: i64,
    pub mtime_nsec: i64,
    pub ctime: i64,
    pub ctime_nsec: i64,
}

} // verus!
