use vstd::prelude::*;

verus! {

/// The mathematical content of one animal record: its tag, its weight and its
/// color, as plain mathematical values. Both the wire-level [`AnimalDAO`] and
/// the resolved [`AnimalKind`] have a `RecordView` as their view, so the
/// contracts of resolution, ordering and serialization all speak one language.
#[verifier::ext_equal]
pub struct RecordView {
    pub tag: Seq<char>,
    pub weight: i32,
    pub color: Seq<char>,
}

/// Type that has a weight.
pub trait HasWeight {
    /// The weight of the object, for use in specifications.
    spec fn spec_weight(&self) -> i32;

    /// Get the weight of an object.
    fn weight(&self) -> (w: i32)
        ensures
            w == self.spec_weight(),
    ;
}

/// Type that has a color.
pub trait HasColor {
    /// The color of the object, for use in specifications.
    spec fn spec_color(&self) -> Seq<char>;

    /// Get the color of an object.
    fn color(&self) -> (c: &str)
        ensures
            c@ == self.spec_color(),
    ;
}

/// Type that implements [`HasColor`] and [`HasWeight`] and represents a
/// specific kind of animal. Every kind carries a tag string, fixed at
/// definition time and distinct across kinds, under which its records are
/// resolved and re-serialized.
pub trait Animal: HasColor + HasWeight {
    /// The fixed tag of this kind of animal, for use in specifications.
    spec fn spec_tag(&self) -> Seq<char>;

    /// Get the tag under which this animal travels at the record boundary.
    fn tag(&self) -> (t: &str)
        ensures
            t@ == self.spec_tag(),
    ;
}

/// AnimalDAO is the generic, tag-plus-attributes record used at the
/// serialization boundary, carrying animal data of the shape
/// `{ "type": "dog", "weight": 17, "color": "white" }`.
///
/// It is intended to be used as a data access object only: it is created at
/// the boundary, consumed once by resolution, and never mutated.
pub struct AnimalDAO {
    pub kind: String,
    pub weight: i32,
    pub color: String,
}

impl View for AnimalDAO {
    type V = RecordView;

    open spec fn view(&self) -> RecordView {
        RecordView { tag: self.kind@, weight: self.weight, color: self.color@ }
    }
}

impl AnimalDAO {
    /// Build a record from its tag, weight and color.
    pub fn new(kind: &str, weight: i32, color: &str) -> (d: AnimalDAO)
        ensures
            d@ == (RecordView { tag: kind@, weight, color: color@ }),
    {
        AnimalDAO { kind: kind.to_owned(), weight, color: color.to_owned() }
    }
}

// Animal kinds. The set is closed: a record resolves into exactly one of
// these, or into nothing.

pub struct Dog {
    pub weight: i32,
    pub color: String,
}

pub struct Cat {
    pub weight: i32,
    pub color: String,
}

pub struct Snake {
    pub weight: i32,
    pub color: String,
}

impl Dog {
    pub fn new(color: &str, weight: i32) -> (a: Dog)
        ensures
            a.color@ == color@,
            a.weight == weight,
    {
        Dog { color: color.to_owned(), weight }
    }
}

impl Cat {
    pub fn new(color: &str, weight: i32) -> (a: Cat)
        ensures
            a.color@ == color@,
            a.weight == weight,
    {
        Cat { color: color.to_owned(), weight }
    }
}

impl Snake {
    pub fn new(color: &str, weight: i32) -> (a: Snake)
        ensures
            a.color@ == color@,
            a.weight == weight,
    {
        Snake { color: color.to_owned(), weight }
    }
}

impl HasWeight for Dog {
    open spec fn spec_weight(&self) -> i32 {
        self.weight
    }

    fn weight(&self) -> (w: i32) {
        self.weight
    }
}

impl HasColor for Dog {
    open spec fn spec_color(&self) -> Seq<char> {
        self.color@
    }

    fn color(&self) -> (c: &str) {
        self.color.as_str()
    }
}

impl Animal for Dog {
    open spec fn spec_tag(&self) -> Seq<char> {
        "dog"@
    }

    fn tag(&self) -> (t: &str) {
        "dog"
    }
}

impl HasWeight for Cat {
    open spec fn spec_weight(&self) -> i32 {
        self.weight
    }

    fn weight(&self) -> (w: i32) {
        self.weight
    }
}

impl HasColor for Cat {
    open spec fn spec_color(&self) -> Seq<char> {
        self.color@
    }

    fn color(&self) -> (c: &str) {
        self.color.as_str()
    }
}

impl Animal for Cat {
    open spec fn spec_tag(&self) -> Seq<char> {
        "cat"@
    }

    fn tag(&self) -> (t: &str) {
        "cat"
    }
}

impl HasWeight for Snake {
    open spec fn spec_weight(&self) -> i32 {
        self.weight
    }

    fn weight(&self) -> (w: i32) {
        self.weight
    }
}

impl HasColor for Snake {
    open spec fn spec_color(&self) -> Seq<char> {
        self.color@
    }

    fn color(&self) -> (c: &str) {
        self.color.as_str()
    }
}

impl Animal for Snake {
    open spec fn spec_tag(&self) -> Seq<char> {
        "snake"@
    }

    fn tag(&self) -> (t: &str) {
        "snake"
    }
}

/// One resolved animal: a value of exactly one of the closed set of kinds.
/// The heterogeneous collection is a sequence of these, consumed only through
/// the shared [`Animal`] capability contract.
pub enum AnimalKind {
    Dog(Dog),
    Cat(Cat),
    Snake(Snake),
}

impl HasWeight for AnimalKind {
    open spec fn spec_weight(&self) -> i32 {
        match self {
            AnimalKind::Dog(a) => a.spec_weight(),
            AnimalKind::Cat(a) => a.spec_weight(),
            AnimalKind::Snake(a) => a.spec_weight(),
        }
    }

    fn weight(&self) -> (w: i32) {
        match self {
            AnimalKind::Dog(a) => a.weight(),
            AnimalKind::Cat(a) => a.weight(),
            AnimalKind::Snake(a) => a.weight(),
        }
    }
}

impl HasColor for AnimalKind {
    open spec fn spec_color(&self) -> Seq<char> {
        match self {
            AnimalKind::Dog(a) => a.spec_color(),
            AnimalKind::Cat(a) => a.spec_color(),
            AnimalKind::Snake(a) => a.spec_color(),
        }
    }

    fn color(&self) -> (c: &str) {
        match self {
            AnimalKind::Dog(a) => a.color(),
            AnimalKind::Cat(a) => a.color(),
            AnimalKind::Snake(a) => a.color(),
        }
    }
}

impl Animal for AnimalKind {
    open spec fn spec_tag(&self) -> Seq<char> {
        match self {
            AnimalKind::Dog(a) => a.spec_tag(),
            AnimalKind::Cat(a) => a.spec_tag(),
            AnimalKind::Snake(a) => a.spec_tag(),
        }
    }

    fn tag(&self) -> (t: &str) {
        match self {
            AnimalKind::Dog(a) => a.tag(),
            AnimalKind::Cat(a) => a.tag(),
            AnimalKind::Snake(a) => a.tag(),
        }
    }
}

impl View for AnimalKind {
    type V = RecordView;

    open spec fn view(&self) -> RecordView {
        RecordView { tag: self.spec_tag(), weight: self.spec_weight(), color: self.spec_color() }
    }
}

/// Whether a tag belongs to the closed set of registered animal kinds.
pub open spec fn known_tag(tag: Seq<char>) -> bool {
    tag == "dog"@ || tag == "cat"@ || tag == "snake"@
}

/// [`known_tag`] on the tag of a record view, as a predicate value, so that
/// contracts about filtering a sequence of records all share one term.
pub open spec fn known_fn() -> spec_fn(RecordView) -> bool {
    |r: RecordView| known_tag(r.tag)
}

/// The view of every resolved animal carries a registered tag.
pub proof fn lemma_animal_tag_known(a: AnimalKind)
    ensures
        known_tag(a@.tag),
{
}

/// Convert an [`AnimalDAO`] into its [`AnimalKind`]: the record resolves
/// exactly when its tag is registered, and resolution carries the tag, the
/// weight and the color over unchanged.
pub fn animal_dao_to_animal(animal: &AnimalDAO) -> (r: Option<AnimalKind>)
    ensures
        r is Some <==> known_tag(animal@.tag),
        r matches Some(a) ==> a@ == animal@,
{
    let dog = "dog".to_owned();
    let cat = "cat".to_owned();
    let snake = "snake".to_owned();
    if animal.kind == dog {
        Some(AnimalKind::Dog(Dog::new(animal.color.as_str(), animal.weight)))
    } else if animal.kind == cat {
        Some(AnimalKind::Cat(Cat::new(animal.color.as_str(), animal.weight)))
    } else if animal.kind == snake {
        Some(AnimalKind::Snake(Snake::new(animal.color.as_str(), animal.weight)))
    } else {
        None
    }
}

/// Render one animal back into the record shape it was resolved from, tag
/// included: the record's view repeats the animal's tag, weight and color.
pub fn animal_to_dao<T: Animal>(a: &T) -> (d: AnimalDAO)
    ensures
        d@ == (RecordView { tag: a.spec_tag(), weight: a.spec_weight(), color: a.spec_color() }),
{
    AnimalDAO { kind: a.tag().to_owned(), weight: a.weight(), color: a.color().to_owned() }
}

/// The views of a sequence of animals, in order.
pub open spec fn animal_views(s: Seq<AnimalKind>) -> Seq<RecordView> {
    Seq::new(s.len(), |i: int| s[i]@)
}

/// The views of a sequence of wire-level records, in order.
pub open spec fn record_views(s: Seq<AnimalDAO>) -> Seq<RecordView> {
    Seq::new(s.len(), |i: int| s[i]@)
}

// Taking views commutes with the sequence operations the library performs.

pub proof fn lemma_animal_views_push(s: Seq<AnimalKind>, a: AnimalKind)
    ensures
        animal_views(s.push(a)) == animal_views(s).push(a@),
{
    assert(animal_views(s.push(a)) =~= animal_views(s).push(a@));
}

pub proof fn lemma_animal_views_remove(s: Seq<AnimalKind>, j: int)
    requires
        0 <= j < s.len(),
    ensures
        animal_views(s.remove(j)) == animal_views(s).remove(j),
{
    assert(animal_views(s.remove(j)) =~= animal_views(s).remove(j));
}

pub proof fn lemma_animal_views_insert(s: Seq<AnimalKind>, j: int, a: AnimalKind)
    requires
        0 <= j <= s.len(),
    ensures
        animal_views(s.insert(j, a)) == animal_views(s).insert(j, a@),
{
    assert(animal_views(s.insert(j, a)) =~= animal_views(s).insert(j, a@));
}

pub proof fn lemma_animal_views_reverse(s: Seq<AnimalKind>)
    ensures
        animal_views(s.reverse()) == animal_views(s).reverse(),
{
    assert(animal_views(s.reverse()) =~= animal_views(s).reverse());
}

pub proof fn lemma_record_views_push(s: Seq<AnimalDAO>, d: AnimalDAO)
    ensures
        record_views(s.push(d)) == record_views(s).push(d@),
{
    assert(record_views(s.push(d)) =~= record_views(s).push(d@));
}

} // verus!
