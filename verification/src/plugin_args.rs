//! The rules of the plugin attribute's argument list.
//!
//! The attribute takes `key = value` entries, where a value is a string, a
//! boolean, or a bracketed list of identifiers. Each recognized key takes one
//! kind of value; an entry with an unknown key, or a known key with the wrong
//! kind of value, is refused, and so is a key given twice. Six keys are
//! required. The VST3 class id must be exactly 16 ASCII bytes, and the synth
//! and analyzer modes exclude each other.
use vstd::prelude::*;
use vstd::string::StrSliceExecFns;

verus! {

/// The value of one attribute entry.
pub enum ArgValue {
    Str(String),
    Bool(bool),
    Idents(Vec<String>),
}

/// One `key = value` entry.
pub struct Arg {
    pub key: String,
    pub value: ArgValue,
}

/// The keys the attribute recognizes.
#[derive(Clone, Copy, PartialEq, Eq, Structural, Debug)]
pub enum Field {
    Name,
    Vendor,
    Url,
    Email,
    ClapId,
    ClapDescription,
    Vst3Id,
    ClapFeatures,
    Vst3Categories,
    Midi,
    MidiOut,
}

/// Why an argument list is refused.
#[derive(Clone, PartialEq, Debug)]
pub enum ArgsError {
    /// An entry whose key is unknown or whose value has the wrong kind.
    Unknown(String),
    /// A key given a second time.
    Duplicate(String),
    /// A required key that is absent.
    Missing(Field),
    /// A VST3 class id that is not exactly 16 ASCII bytes.
    BadVst3Id,
    /// Both `midi` and `midi_out` set.
    MidiAndMidiOut,
}

/// The parsed contents of the attribute.
pub struct PluginArgs {
    pub name: String,
    pub vendor: String,
    pub url: Option<String>,
    pub email: Option<String>,
    pub clap_id: String,
    pub clap_description: Option<String>,
    pub vst3_id: String,
    pub clap_features: Vec<String>,
    pub vst3_categories: Vec<String>,
    /// Generate a synth (MIDI in) plugin.
    pub midi: bool,
    /// Generate an audio→MIDI analyzer plugin.
    pub midi_out: bool,
}

/// The plugin shape the attribute generates.
#[derive(Clone, Copy, PartialEq, Eq, Structural, Debug)]
pub enum PluginKind {
    /// Audio in → audio out.
    Effect,
    /// MIDI in → audio out.
    Synth,
    /// Audio in → MIDI out.
    AudioToMidi,
}

/// The field an entry sets: its key names a field and its value has the kind
/// that field takes (strings for the texts and ids, a list for the features
/// and categories, a boolean for the two mode flags).
pub open spec fn spec_field(key: Seq<char>, value: ArgValue) -> Option<Field> {
    match value {
        ArgValue::Str(_) => if key == "name"@ {
            Some(Field::Name)
        } else if key == "vendor"@ {
            Some(Field::Vendor)
        } else if key == "url"@ {
            Some(Field::Url)
        } else if key == "email"@ {
            Some(Field::Email)
        } else if key == "clap_id"@ {
            Some(Field::ClapId)
        } else if key == "clap_description"@ {
            Some(Field::ClapDescription)
        } else if key == "vst3_id"@ {
            Some(Field::Vst3Id)
        } else {
            None
        },
        ArgValue::Idents(_) => if key == "clap_features"@ {
            Some(Field::ClapFeatures)
        } else if key == "vst3_categories"@ {
            Some(Field::Vst3Categories)
        } else {
            None
        },
        ArgValue::Bool(_) => if key == "midi"@ {
            Some(Field::Midi)
        } else if key == "midi_out"@ {
            Some(Field::MidiOut)
        } else {
            None
        },
    }
}

/// The field entry `i` of `args` sets.
pub open spec fn field_at(args: Seq<Arg>, i: int) -> Option<Field> {
    spec_field(args[i].key@, args[i].value)
}

/// Entry `i` is accepted: it sets a field no earlier entry set.
pub open spec fn ok_at(args: Seq<Arg>, i: int) -> bool {
    field_at(args, i) is Some && forall|j: int| 0 <= j < i ==> #[trigger] field_at(args, j) != field_at(args, i)
}

/// Every entry is accepted.
pub open spec fn all_ok(args: Seq<Arg>) -> bool {
    forall|i: int| 0 <= i < args.len() ==> #[trigger] ok_at(args, i)
}

/// Entry `i` is the first refused entry.
pub open spec fn first_refused(args: Seq<Arg>, i: int) -> bool {
    &&& 0 <= i < args.len()
    &&& !ok_at(args, i)
    &&& forall|j: int| 0 <= j < i ==> #[trigger] ok_at(args, j)
}

/// Some entry sets field `f`.
pub open spec fn has_field(args: Seq<Arg>, f: Field) -> bool {
    exists|i: int| 0 <= i < args.len() && #[trigger] field_at(args, i) == Some(f)
}

/// The entry that sets field `f` (unique once every entry is accepted).
pub open spec fn entry_of(args: Seq<Arg>, f: Field) -> Arg {
    args[choose|i: int| 0 <= i < args.len() && #[trigger] field_at(args, i) == Some(f)]
}

/// The required fields, in the order their absence is reported.
pub open spec fn required(k: int) -> Field {
    if k == 0 {
        Field::Name
    } else if k == 1 {
        Field::Vendor
    } else if k == 2 {
        Field::ClapId
    } else if k == 3 {
        Field::Vst3Id
    } else if k == 4 {
        Field::ClapFeatures
    } else {
        Field::Vst3Categories
    }
}

/// The `k`-th required field is the first one absent.
pub open spec fn first_missing(args: Seq<Arg>, k: int) -> bool {
    &&& 0 <= k < 6
    &&& !has_field(args, required(k))
    &&& forall|j: int| 0 <= j < k ==> has_field(args, #[trigger] required(j))
}

/// Every required field is present.
pub open spec fn all_required(args: Seq<Arg>) -> bool {
    forall|k: int| 0 <= k < 6 ==> has_field(args, #[trigger] required(k))
}

/// The string field `f` is set to `s` by its entry.
pub open spec fn sets_str(args: Seq<Arg>, f: Field, s: String) -> bool {
    entry_of(args, f).value == ArgValue::Str(s)
}

/// An optional string field: present exactly when some entry sets it.
pub open spec fn sets_opt(args: Seq<Arg>, f: Field, o: Option<String>) -> bool {
    &&& (o is Some <==> has_field(args, f))
    &&& (o matches Some(s) ==> sets_str(args, f, s))
}

/// A list field set by its entry.
pub open spec fn sets_list(args: Seq<Arg>, f: Field, v: Vec<String>) -> bool {
    entry_of(args, f).value == ArgValue::Idents(v)
}

/// A flag: true exactly when its entry sets it true.
pub open spec fn sets_flag(args: Seq<Arg>, f: Field, b: bool) -> bool {
    b == (has_field(args, f) && entry_of(args, f).value == ArgValue::Bool(true))
}

/// Which field an entry sets, if any.
pub fn field_of(arg: &Arg) -> (f: Option<Field>)
    ensures
        f == spec_field(arg.key@, arg.value),
{
    let k = &arg.key;
    match &arg.value {
        ArgValue::Str(_) => {
            if *k == String::from_str("name") {
                Some(Field::Name)
            } else if *k == String::from_str("vendor") {
                Some(Field::Vendor)
            } else if *k == String::from_str("url") {
                Some(Field::Url)
            } else if *k == String::from_str("email") {
                Some(Field::Email)
            } else if *k == String::from_str("clap_id") {
                Some(Field::ClapId)
            } else if *k == String::from_str("clap_description") {
                Some(Field::ClapDescription)
            } else if *k == String::from_str("vst3_id") {
                Some(Field::Vst3Id)
            } else {
                None
            }
        },
        ArgValue::Idents(_) => {
            if *k == String::from_str("clap_features") {
                Some(Field::ClapFeatures)
            } else if *k == String::from_str("vst3_categories") {
                Some(Field::Vst3Categories)
            } else {
                None
            }
        },
        ArgValue::Bool(_) => {
            if *k == String::from_str("midi") {
                Some(Field::Midi)
            } else if *k == String::from_str("midi_out") {
                Some(Field::MidiOut)
            } else {
                None
            }
        },
    }
}

/// The position of a field in the table of fields seen.
pub open spec fn spec_slot(f: Field) -> int {
    match f {
        Field::Name => 0,
        Field::Vendor => 1,
        Field::Url => 2,
        Field::Email => 3,
        Field::ClapId => 4,
        Field::ClapDescription => 5,
        Field::Vst3Id => 6,
        Field::ClapFeatures => 7,
        Field::Vst3Categories => 8,
        Field::Midi => 9,
        Field::MidiOut => 10,
    }
}

fn slot(f: Field) -> (s: usize)
    ensures
        s == spec_slot(f),
        s < 11,
{
    match f {
        Field::Name => 0,
        Field::Vendor => 1,
        Field::Url => 2,
        Field::Email => 3,
        Field::ClapId => 4,
        Field::ClapDescription => 5,
        Field::Vst3Id => 6,
        Field::ClapFeatures => 7,
        Field::Vst3Categories => 8,
        Field::Midi => 9,
        Field::MidiOut => 10,
    }
}

proof fn lemma_slot_injective(a: Field, b: Field)
    ensures
        spec_slot(a) == spec_slot(b) ==> a == b,
{
}

/// Check every entry in order: the first entry that is refused decides the
/// error. Returns the fields the entries set when all are accepted.
fn check_entries(args: &Vec<Arg>) -> (r: Result<(), ArgsError>)
    ensures
        r is Ok <==> all_ok(args@),
        r matches Err(e) ==> exists|i: int| #[trigger] first_refused(args@, i) && match e {
            ArgsError::Unknown(k) => field_at(args@, i) is None && k@ == args@[i].key@,
            ArgsError::Duplicate(k) => field_at(args@, i) is Some && k@ == args@[i].key@,
            _ => false,
        },
{
    let mut seen: Vec<bool> = vec![false, false, false, false, false, false, false, false, false, false, false];
    let n = args.len();
    let mut i: usize = 0;
    while i < n
        invariant
            n == args@.len(),
            i <= n,
            seen@.len() == 11,
            forall|j: int| 0 <= j < i ==> #[trigger] ok_at(args@, j),
            forall|s: int| 0 <= s < 11 ==> (#[trigger] seen@[s] <==> exists|j: int| 0 <= j < i && #[trigger] field_at(args@, j) is Some
                && spec_slot(field_at(args@, j)->0) == s),
        decreases n - i,
    {
        match field_of(&args[i]) {
            None => {
                let k = args[i].key.clone();
                assert(first_refused(args@, i as int));
                return Err(ArgsError::Unknown(k));
            },
            Some(f) => {
                let s = slot(f);
                if seen[s] {
                    let k = args[i].key.clone();
                    proof {
                        let j = choose|j: int| 0 <= j < i && #[trigger] field_at(args@, j) is Some
                            && spec_slot(field_at(args@, j)->0) == s;
                        lemma_slot_injective(field_at(args@, j)->0, f);
                        assert(!ok_at(args@, i as int));
                        assert(first_refused(args@, i as int));
                    }
                    return Err(ArgsError::Duplicate(k));
                }
                proof {
                    assert forall|j: int| 0 <= j < i implies #[trigger] field_at(args@, j) != field_at(args@, i as int) by {
                        if field_at(args@, j) == Some(f) {
                            assert(seen@[s as int]);
                        }
                    }
                    assert(ok_at(args@, i as int));
                }
                seen.set(s, true);
                proof {
                    assert forall|t: int| 0 <= t < 11 implies (#[trigger] seen@[t] <==> exists|j: int| 0 <= j < i + 1
                        && #[trigger] field_at(args@, j) is Some && spec_slot(field_at(args@, j)->0) == t) by {
                        if t == s as int {
                            assert(field_at(args@, i as int) is Some && spec_slot(field_at(args@, i as int)->0) == t);
                        } else if seen@[t] {
                            let j = choose|j: int| 0 <= j < i && #[trigger] field_at(args@, j) is Some
                                && spec_slot(field_at(args@, j)->0) == t;
                            assert(0 <= j < i + 1);
                        } else {
                            assert forall|j: int| 0 <= j < i + 1 && #[trigger] field_at(args@, j) is Some implies spec_slot(
                                field_at(args@, j)->0,
                            ) != t by {
                                if j == i as int {
                                } else {
                                }
                            }
                        }
                    }
                }
            },
        }
        i = i + 1;
    }
    Ok(())
}


/// After the first `k` entries, `o` holds the value of the entry that set field
/// `f` among them, or nothing when none did.
pub open spec fn slot_holds(args: Seq<Arg>, k: int, f: Field, o: Option<ArgValue>) -> bool {
    &&& (o is Some <==> exists|j: int| 0 <= j < k && #[trigger] field_at(args, j) == Some(f))
    &&& (o matches Some(v) ==> forall|j: int| 0 <= j < k && #[trigger] field_at(args, j) == Some(f) ==> args[j].value == v)
}

/// Once every entry is accepted, each field is set by at most one entry.
proof fn lemma_field_unique(args: Seq<Arg>, f: Field, i: int, j: int)
    requires
        all_ok(args),
        0 <= i < args.len(),
        0 <= j < args.len(),
        field_at(args, i) == Some(f),
        field_at(args, j) == Some(f),
    ensures
        i == j,
{
    if i < j {
        assert(ok_at(args, j));
    } else if j < i {
        assert(ok_at(args, i));
    }
}

/// A slot filled over all the entries holds the value of the entry of its field.
proof fn lemma_slot_final(args: Seq<Arg>, f: Field, o: Option<ArgValue>)
    requires
        all_ok(args),
        slot_holds(args, args.len() as int, f, o),
    ensures
        o is Some <==> has_field(args, f),
        o matches Some(v) ==> entry_of(args, f).value == v,
{
    if o is Some {
        let i = choose|i: int| 0 <= i < args.len() && #[trigger] field_at(args, i) == Some(f);
        assert(field_at(args, i) == Some(f));
    }
}

/// Adding entry `k` to the slots: the slot of its field takes its value, every
/// other slot stays.
proof fn lemma_slot_step(args: Seq<Arg>, k: int, f: Field, o: Option<ArgValue>, o2: Option<ArgValue>)
    requires
        all_ok(args),
        0 <= k < args.len(),
        slot_holds(args, k, f, o),
        field_at(args, k) == Some(f) ==> o2 == Some(args[k].value),
        field_at(args, k) != Some(f) ==> o2 == o,
    ensures
        slot_holds(args, k + 1, f, o2),
{
    if field_at(args, k) == Some(f) {
        assert(ok_at(args, k));
        assert forall|j: int| 0 <= j < k + 1 && #[trigger] field_at(args, j) == Some(f) implies args[j].value
            == args[k].value by {
            if j < k {
                assert(field_at(args, j) != field_at(args, k));
            }
        }
        assert(0 <= k < k + 1 && field_at(args, k) == Some(f));
    } else {
        assert forall|j: int| 0 <= j < k + 1 && #[trigger] field_at(args, j) == Some(f) implies 0 <= j < k by {
        }
    }
}

/// The position of the entry that sets `f`, if any.
fn find_field(args: &Vec<Arg>, f: Field) -> (r: Option<usize>)
    ensures
        r is None <==> !has_field(args@, f),
        r matches Some(i) ==> i < args@.len() && field_at(args@, i as int) == Some(f),
{
    let n = args.len();
    let mut i: usize = 0;
    while i < n
        invariant
            n == args@.len(),
            i <= n,
            forall|j: int| 0 <= j < i ==> #[trigger] field_at(args@, j) != Some(f),
        decreases n - i,
    {
        if field_of(&args[i]) == Some(f) {
            return Some(i);
        }
        i = i + 1;
    }
    None
}

/// Parse the attribute's entries, refusing the first entry whose key is
/// unknown (or whose value has the wrong kind) or repeats an earlier key, and
/// then the first required key that is absent.
pub fn parse_args(args: Vec<Arg>) -> (r: Result<PluginArgs, ArgsError>)
    ensures
        r is Ok <==> all_ok(args@) && all_required(args@),
        (exists|i: int| #[trigger] first_refused(args@, i)) <==> r matches Err(ArgsError::Unknown(_)) || r matches Err(
            ArgsError::Duplicate(_)),
        r matches Err(e) ==> match e {
            ArgsError::Unknown(k) => exists|i: int| #[trigger] first_refused(args@, i) && field_at(args@, i) is None
                && k@ == args@[i].key@,
            ArgsError::Duplicate(k) => exists|i: int| #[trigger] first_refused(args@, i) && field_at(args@, i) is Some
                && k@ == args@[i].key@,
            ArgsError::Missing(f) => all_ok(args@) && exists|k: int| #[trigger] first_missing(args@, k) && f == required(k),
            _ => false,
        },
        r matches Ok(p) ==> {
            &&& sets_str(args@, Field::Name, p.name)
            &&& sets_str(args@, Field::Vendor, p.vendor)
            &&& sets_opt(args@, Field::Url, p.url)
            &&& sets_opt(args@, Field::Email, p.email)
            &&& sets_str(args@, Field::ClapId, p.clap_id)
            &&& sets_opt(args@, Field::ClapDescription, p.clap_description)
            &&& sets_str(args@, Field::Vst3Id, p.vst3_id)
            &&& sets_list(args@, Field::ClapFeatures, p.clap_features)
            &&& sets_list(args@, Field::Vst3Categories, p.vst3_categories)
            &&& sets_flag(args@, Field::Midi, p.midi)
            &&& sets_flag(args@, Field::MidiOut, p.midi_out)
        },
{
    let checked = check_entries(&args);
    if let Err(e) = checked {
        proof {
            if all_ok(args@) {
            } else {
                let i = choose|i: int| #[trigger] first_refused(args@, i);
                assert(!ok_at(args@, i));
            }
        }
        return Err(e);
    }
    proof {
        assert forall|i: int| !#[trigger] first_refused(args@, i) by {
            if 0 <= i < args@.len() {
                assert(ok_at(args@, i));
            }
        }
    }
    let mut k: usize = 0;
    while k < 6
        invariant
            k <= 6,
            all_ok(args@),
            forall|j: int| 0 <= j < k ==> has_field(args@, #[trigger] required(j)),
        decreases 6 - k,
    {
        let f = if k == 0 {
            Field::Name
        } else if k == 1 {
            Field::Vendor
        } else if k == 2 {
            Field::ClapId
        } else if k == 3 {
            Field::Vst3Id
        } else if k == 4 {
            Field::ClapFeatures
        } else {
            Field::Vst3Categories
        };
        assert(f == required(k as int));
        if find_field(&args, f).is_none() {
            assert(first_missing(args@, k as int));
            return Err(ArgsError::Missing(f));
        }
        k = k + 1;
    }
    let ghost orig = args@;
    let n = args.len();
    let mut rest = args;
    let mut name: Option<ArgValue> = None;
    let mut vendor: Option<ArgValue> = None;
    let mut url: Option<ArgValue> = None;
    let mut email: Option<ArgValue> = None;
    let mut clap_id: Option<ArgValue> = None;
    let mut clap_description: Option<ArgValue> = None;
    let mut vst3_id: Option<ArgValue> = None;
    let mut clap_features: Option<ArgValue> = None;
    let mut vst3_categories: Option<ArgValue> = None;
    let mut midi: Option<ArgValue> = None;
    let mut midi_out: Option<ArgValue> = None;
    let mut done: usize = 0;
    while rest.len() > 0
        invariant
            n == orig.len(),
            done + rest@.len() == n,
            rest@ == orig.subrange(done as int, n as int),
            all_ok(orig),
            slot_holds(orig, done as int, Field::Name, name),
            slot_holds(orig, done as int, Field::Vendor, vendor),
            slot_holds(orig, done as int, Field::Url, url),
            slot_holds(orig, done as int, Field::Email, email),
            slot_holds(orig, done as int, Field::ClapId, clap_id),
            slot_holds(orig, done as int, Field::ClapDescription, clap_description),
            slot_holds(orig, done as int, Field::Vst3Id, vst3_id),
            slot_holds(orig, done as int, Field::ClapFeatures, clap_features),
            slot_holds(orig, done as int, Field::Vst3Categories, vst3_categories),
            slot_holds(orig, done as int, Field::Midi, midi),
            slot_holds(orig, done as int, Field::MidiOut, midi_out),
        decreases rest@.len(),
    {
        let arg = rest.remove(0);
        assert(arg == orig[done as int]);
        let f = field_of(&arg);
        let ghost (n0, n1, n2, n3, n4, n5, n6, n7, n8, n9, n10) = (name, vendor, url, email, clap_id, clap_description, vst3_id, clap_features, vst3_categories, midi, midi_out);
        let ghost v = arg.value;
        match f {
            Some(Field::Name) => { name = Some(arg.value); },
            Some(Field::Vendor) => { vendor = Some(arg.value); },
            Some(Field::Url) => { url = Some(arg.value); },
            Some(Field::Email) => { email = Some(arg.value); },
            Some(Field::ClapId) => { clap_id = Some(arg.value); },
            Some(Field::ClapDescription) => { clap_description = Some(arg.value); },
            Some(Field::Vst3Id) => { vst3_id = Some(arg.value); },
            Some(Field::ClapFeatures) => { clap_features = Some(arg.value); },
            Some(Field::Vst3Categories) => { vst3_categories = Some(arg.value); },
            Some(Field::Midi) => { midi = Some(arg.value); },
            Some(Field::MidiOut) => { midi_out = Some(arg.value); },
            None => {},
        }
        proof {
            let d = done as int;
            lemma_slot_step(orig, d, Field::Name, n0, name);
            lemma_slot_step(orig, d, Field::Vendor, n1, vendor);
            lemma_slot_step(orig, d, Field::Url, n2, url);
            lemma_slot_step(orig, d, Field::Email, n3, email);
            lemma_slot_step(orig, d, Field::ClapId, n4, clap_id);
            lemma_slot_step(orig, d, Field::ClapDescription, n5, clap_description);
            lemma_slot_step(orig, d, Field::Vst3Id, n6, vst3_id);
            lemma_slot_step(orig, d, Field::ClapFeatures, n7, clap_features);
            lemma_slot_step(orig, d, Field::Vst3Categories, n8, vst3_categories);
            lemma_slot_step(orig, d, Field::Midi, n9, midi);
            lemma_slot_step(orig, d, Field::MidiOut, n10, midi_out);
        }
        done = done + 1;
        assert(rest@ =~= orig.subrange(done as int, n as int));
    }
    proof {
        lemma_slot_final(orig, Field::Name, name);
        lemma_slot_final(orig, Field::Vendor, vendor);
        lemma_slot_final(orig, Field::Url, url);
        lemma_slot_final(orig, Field::Email, email);
        lemma_slot_final(orig, Field::ClapId, clap_id);
        lemma_slot_final(orig, Field::ClapDescription, clap_description);
        lemma_slot_final(orig, Field::Vst3Id, vst3_id);
        lemma_slot_final(orig, Field::ClapFeatures, clap_features);
        lemma_slot_final(orig, Field::Vst3Categories, vst3_categories);
        lemma_slot_final(orig, Field::Midi, midi);
        lemma_slot_final(orig, Field::MidiOut, midi_out);
        assert(has_field(orig, required(0)) && has_field(orig, required(1)) && has_field(orig, required(2))
            && has_field(orig, required(3)) && has_field(orig, required(4)) && has_field(orig, required(5)));
        lemma_entry_kind(orig, Field::Name);
        lemma_entry_kind(orig, Field::Vendor);
        lemma_entry_kind(orig, Field::Url);
        lemma_entry_kind(orig, Field::Email);
        lemma_entry_kind(orig, Field::ClapId);
        lemma_entry_kind(orig, Field::ClapDescription);
        lemma_entry_kind(orig, Field::Vst3Id);
        lemma_entry_kind(orig, Field::ClapFeatures);
        lemma_entry_kind(orig, Field::Vst3Categories);
        lemma_entry_kind(orig, Field::Midi);
        lemma_entry_kind(orig, Field::MidiOut);
    }
    let name = take_str(name);
    let vendor = take_str(vendor);
    let url = take_opt_str(url);
    let email = take_opt_str(email);
    let clap_id = take_str(clap_id);
    let clap_description = take_opt_str(clap_description);
    let vst3_id = take_str(vst3_id);
    let clap_features = take_list(clap_features);
    let vst3_categories = take_list(vst3_categories);
    let midi = take_flag(midi);
    let midi_out = take_flag(midi_out);
    Ok(PluginArgs {
        name,
        vendor,
        url,
        email,
        clap_id,
        clap_description,
        vst3_id,
        clap_features,
        vst3_categories,
        midi,
        midi_out,
    })
}

/// The value kind each field takes.
pub open spec fn kind_ok(f: Field, v: ArgValue) -> bool {
    match f {
        Field::ClapFeatures | Field::Vst3Categories => v is Idents,
        Field::Midi | Field::MidiOut => v is Bool,
        _ => v is Str,
    }
}

/// The entry of a field holds a value of the kind the field takes.
proof fn lemma_entry_kind(args: Seq<Arg>, f: Field)
    ensures
        has_field(args, f) ==> kind_ok(f, entry_of(args, f).value),
{
    if has_field(args, f) {
        let i = choose|i: int| 0 <= i < args.len() && #[trigger] field_at(args, i) == Some(f);
        assert(field_at(args, i) == Some(f));
    }
}

fn take_str(o: Option<ArgValue>) -> (s: String)
    requires
        o matches Some(v) && v is Str,
    ensures
        o == Some(ArgValue::Str(s)),
{
    match o {
        Some(ArgValue::Str(s)) => s,
        _ => String::new(),
    }
}

fn take_opt_str(o: Option<ArgValue>) -> (s: Option<String>)
    requires
        o matches Some(v) ==> v is Str,
    ensures
        s is Some <==> o is Some,
        s matches Some(t) ==> o == Some(ArgValue::Str(t)),
{
    match o {
        Some(ArgValue::Str(s)) => Some(s),
        _ => None,
    }
}

fn take_list(o: Option<ArgValue>) -> (l: Vec<String>)
    requires
        o matches Some(v) && v is Idents,
    ensures
        o == Some(ArgValue::Idents(l)),
{
    match o {
        Some(ArgValue::Idents(l)) => l,
        _ => Vec::new(),
    }
}

fn take_flag(o: Option<ArgValue>) -> (b: bool)
    requires
        o matches Some(v) ==> v is Bool,
    ensures
        b == (o == Some(ArgValue::Bool(true))),
{
    match o {
        Some(ArgValue::Bool(b)) => b,
        _ => false,
    }
}


/// A VST3 class id is exactly 16 ASCII characters (so 16 bytes).
pub open spec fn vst3_id_ok(id: Seq<char>) -> bool {
    vstd::utf8::is_ascii_chars(id) && id.len() == 16
}

/// The plugin shape the mode flags select.
pub open spec fn spec_kind(midi: bool, midi_out: bool) -> PluginKind {
    if midi_out {
        PluginKind::AudioToMidi
    } else if midi {
        PluginKind::Synth
    } else {
        PluginKind::Effect
    }
}

/// Check the parsed arguments as the attribute does before generating code:
/// first the VST3 class id, then that at most one mode flag is set. Returns the
/// plugin shape to generate.
pub fn validate(args: &PluginArgs) -> (r: Result<PluginKind, ArgsError>)
    ensures
        r == if !vst3_id_ok(args.vst3_id@) {
            Err(ArgsError::BadVst3Id)
        } else if args.midi && args.midi_out {
            Err(ArgsError::MidiAndMidiOut)
        } else {
            Ok(spec_kind(args.midi, args.midi_out))
        },
{
    let id = args.vst3_id.as_str();
    if !id.is_ascii() || id.unicode_len() != 16 {
        return Err(ArgsError::BadVst3Id);
    }
    if args.midi && args.midi_out {
        return Err(ArgsError::MidiAndMidiOut);
    }
    if args.midi_out {
        Ok(PluginKind::AudioToMidi)
    } else if args.midi {
        Ok(PluginKind::Synth)
    } else {
        Ok(PluginKind::Effect)
    }
}


/// The key that names a field.
pub open spec fn key_name(f: Field) -> Seq<char> {
    match f {
        Field::Name => "name"@,
        Field::Vendor => "vendor"@,
        Field::Url => "url"@,
        Field::Email => "email"@,
        Field::ClapId => "clap_id"@,
        Field::ClapDescription => "clap_description"@,
        Field::Vst3Id => "vst3_id"@,
        Field::ClapFeatures => "clap_features"@,
        Field::Vst3Categories => "vst3_categories"@,
        Field::Midi => "midi"@,
        Field::MidiOut => "midi_out"@,
    }
}

/// An accepted entry sets the field its key names, and a key given the kind of
/// value its field takes sets that field.
pub proof fn lemma_entry_sets_named_field(key: Seq<char>, value: ArgValue, f: Field)
    ensures
        spec_field(key, value) == Some(f) ==> key_name(f) == key,
        key_name(f) == key && takes_value(f, value) ==> spec_field(key, value) == Some(f),
{
    reveal_strlit("name");
    reveal_strlit("vendor");
    reveal_strlit("url");
    reveal_strlit("email");
    reveal_strlit("clap_id");
    reveal_strlit("clap_description");
    reveal_strlit("vst3_id");
    reveal_strlit("clap_features");
    reveal_strlit("vst3_categories");
    reveal_strlit("midi");
    reveal_strlit("midi_out");
    assert("vst3_id"@[0] != "clap_id"@[0]);
    if key_name(f) == key && takes_value(f, value) {
        assert(key.len() == key_name(f).len());
        match f {
            Field::Vst3Id => {
                assert(key[0] != "clap_id"@[0]);
            },
            _ => {},
        }
    }
}

/// The kind of value field `f` takes: a list for the features and categories,
/// a boolean for the two mode flags, a string for the rest.
pub open spec fn takes_value(f: Field, value: ArgValue) -> bool {
    match f {
        Field::ClapFeatures | Field::Vst3Categories => value is Idents,
        Field::Midi | Field::MidiOut => value is Bool,
        _ => value is Str,
    }
}

impl Field {
    /// The key that names this field.
    pub fn key(self) -> (k: &'static str)
        ensures
            k@ == key_name(self),
    {
        match self {
            Field::Name => "name",
            Field::Vendor => "vendor",
            Field::Url => "url",
            Field::Email => "email",
            Field::ClapId => "clap_id",
            Field::ClapDescription => "clap_description",
            Field::Vst3Id => "vst3_id",
            Field::ClapFeatures => "clap_features",
            Field::Vst3Categories => "vst3_categories",
            Field::Midi => "midi",
            Field::MidiOut => "midi_out",
        }
    }
}

/// The compile error text reported for an error.
pub open spec fn spec_message(e: ArgsError) -> Seq<char> {
    match e {
        ArgsError::Unknown(k) => "unknown or mistyped `daudio_plugin` key `"@ + k@ + "`"@,
        ArgsError::Duplicate(k) => "duplicate `daudio_plugin` key `"@ + k@ + "`"@,
        ArgsError::Missing(f) => "`daudio_plugin` requires a `"@ + key_name(f) + "` key"@,
        ArgsError::BadVst3Id => "`vst3_id` must be exactly 16 ASCII bytes"@,
        ArgsError::MidiAndMidiOut => "`daudio_plugin` cannot set both `midi` and `midi_out`"@,
    }
}

impl ArgsError {
    /// The compile error text the attribute reports for this error.
    pub fn message(&self) -> (m: String)
        ensures
            m@ == spec_message(*self),
    {
        match self {
            ArgsError::Unknown(k) => {
                let mut m = String::from_str("unknown or mistyped `daudio_plugin` key `");
                m.append(k.as_str());
                m.append("`");
                m
            },
            ArgsError::Duplicate(k) => {
                let mut m = String::from_str("duplicate `daudio_plugin` key `");
                m.append(k.as_str());
                m.append("`");
                m
            },
            ArgsError::Missing(f) => {
                let mut m = String::from_str("`daudio_plugin` requires a `");
                m.append(f.key());
                m.append("` key");
                m
            },
            ArgsError::BadVst3Id => String::from_str("`vst3_id` must be exactly 16 ASCII bytes"),
            ArgsError::MidiAndMidiOut => String::from_str("`daudio_plugin` cannot set both `midi` and `midi_out`"),
        }
    }
}

} // verus!
