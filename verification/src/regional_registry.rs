//! The central server's registry of regional servers: each region name is
//! registered once and gets an id, and the address where the region takes
//! synchronisation messages is kept.

use std::collections::HashMap;
use crate::text::ascii_text;
use std::io;
use vstd::prelude::*;
use vstd::string::StrSliceExecFns;

verus! {

broadcast use vstd::std_specs::hash::group_hash_axioms;

/// What `char::is_alphanumeric` (std) answers for `c`: whether `c` is
/// alphabetic or numeric in the sense of Unicode.
pub uninterp spec fn is_alphanumeric_char(c: char) -> bool;

/// `char::is_alphanumeric` (std). The answer is named
/// `is_alphanumeric_char`; for ASCII characters the documented classes are
/// exactly the letters and the decimal digits, which is stated here.
#[verifier::external_body]
fn char_is_alphanumeric(c: char) -> (r: bool)
    ensures
        r == is_alphanumeric_char(c),
        (c as u32) < 128 ==> (r <==> ('a' <= c <= 'z' || 'A' <= c <= 'Z' || '0' <= c <= '9')),
{
    c.is_alphanumeric()
}

#[verifier::external_type_specification]
#[verifier::external_body]
pub struct ExIoError(io::Error);

/// What `io::Error::new` (std) returns for the kind
/// `io::ErrorKind::InvalidInput` and the text payload `message`: an error of
/// that kind carrying that payload. It depends on `message` alone.
pub uninterp spec fn invalid_input_error(message: Seq<char>) -> io::Error;

/// Whether `io::Error::kind` (std) answers `io::ErrorKind::InvalidInput`
/// for `e`.
pub uninterp spec fn kind_is_invalid_input(e: io::Error) -> bool;

/// `io::Error::new(io::ErrorKind::InvalidInput, message)` (std): an error of
/// kind `InvalidInput` with `message` as payload. The documentation of
/// `io::Error::kind` says it returns the kind the error was made with.
#[verifier::external_body]
fn invalid_input(message: String) -> (e: io::Error)
    ensures
        e == invalid_input_error(message@),
        kind_is_invalid_input(e),
{
    io::Error::new(io::ErrorKind::InvalidInput, message)
}

/// A character allowed in a region name.
pub open spec fn region_name_char(c: char) -> bool {
    is_alphanumeric_char(c) || c == '_' || c == '-'
}

/// An ASCII character allowed in a region name: a letter, a digit, `_` or `-`.
pub open spec fn ascii_region_char(c: char) -> bool {
    'a' <= c <= 'z' || 'A' <= c <= 'Z' || '0' <= c <= '9' || c == '_' || c == '-'
}

/// An ASCII region name: not empty, made of letters, digits, `_` and `-`.
pub open spec fn ascii_region_name(name: Seq<char>) -> bool {
    name.len() > 0 && forall|i: int| 0 <= i < name.len() ==> ascii_region_char(#[trigger] name[i])
}

/// Whether `c` may appear in a region name.
pub fn is_valid_region_name_char(c: char) -> (r: bool)
    ensures
        r == region_name_char(c),
        (c as u32) < 128 ==> (r <==> ascii_region_char(c)),
{
    char_is_alphanumeric(c) || c == '_' || c == '-'
}

/// A region name: not empty, made of alphanumeric characters, `_` and `-`.
pub open spec fn valid_region_name(name: Seq<char>) -> bool {
    name.len() > 0 && forall|i: int| 0 <= i < name.len() ==> region_name_char(#[trigger] name[i])
}

/// Whether `name` is a valid region name. On an ASCII name that is whether
/// it is made of letters, digits, `_` and `-` and is not empty.
pub fn is_valid_region_name(name: &str) -> (r: bool)
    ensures
        r == valid_region_name(name@),
        ascii_text(name@) ==> (valid_region_name(name@) <==> ascii_region_name(name@)),
{
    let n = name.unicode_len();
    if n == 0 {
        return false;
    }
    let mut i: usize = 0;
    while i < n
        invariant
            i <= n,
            n == name@.len(),
            forall|k: int| 0 <= k < i ==> region_name_char(#[trigger] name@[k]),
            forall|k: int|
                0 <= k < i && (name@[k] as u32) < 128 ==> ascii_region_char(#[trigger] name@[k]),
        decreases n - i,
    {
        let c = name.get_char(i);
        if !is_valid_region_name_char(c) {
            assert(!region_name_char(name@[i as int]));
            assert(ascii_text(name@) ==> !ascii_region_char(name@[i as int]));
            return false;
        }
        i = i + 1;
    }
    true
}

/// A registered regional server.
#[derive(Debug, Clone)]
pub struct RegionalInfo {
    pub region_id: u8,
    pub sync_address: String,
}

/// A registered region: `(name, id, sync address)`.
pub type RegionView = (Seq<char>, u8, Seq<char>);

/// Abstract state of the registry.
#[verifier::ext_equal]
pub struct RegistryView {
    /// The regions, in the order they registered.
    pub regions: Seq<RegionView>,
    /// The name of each id handed out.
    pub ids: Map<u8, Seq<char>>,
    /// The id the next new region gets.
    pub next_id: u8,
}

/// The entry of region `name`.
pub open spec fn find_region(regions: Seq<RegionView>, name: Seq<char>) -> Option<RegionView>
    decreases regions.len(),
{
    if regions.len() == 0 {
        None
    } else if regions[0].0 == name {
        Some(regions[0])
    } else {
        find_region(regions.drop_first(), name)
    }
}

/// The invariant of the registry: names are distinct, the `i`-th region
/// registered got id `i + 1` (modulo 256, ids wrap around), and the next id
/// follows the last one.
pub open spec fn registry_wf(v: RegistryView) -> bool {
    &&& forall|i: int, j: int|
        0 <= i < j < v.regions.len() ==> #[trigger] v.regions[i].0 != #[trigger] v.regions[j].0
    &&& forall|i: int| 0 <= i < v.regions.len() ==> #[trigger] v.regions[i].1 == (i + 1) % 256
    &&& v.next_id == (v.regions.len() + 1) % 256
}

/// The message of a refused region name.
pub open spec fn invalid_region_message(name: Seq<char>) -> Seq<char> {
    "Nombre de región inválido: '"@ + name + "'. Debe ser alfanumérico"@
}

/// Registering `name` with `sync_address`: a known name gets its id back
/// (`false`: not new), a new one the next id (`true`).
pub open spec fn register_step(v: RegistryView, name: Seq<char>, sync_address: Seq<char>) -> (
    RegistryView,
    Result<(u8, bool), Seq<char>>,
) {
    if !valid_region_name(name) {
        (v, Err(invalid_region_message(name)))
    } else {
        match find_region(v.regions, name) {
            Some(r) => (v, Ok((r.1, false))),
            None => (
                RegistryView {
                    regions: v.regions.push((name, v.next_id, sync_address)),
                    ids: v.ids.insert(v.next_id, name),
                    next_id: v.next_id.wrapping_add(1),
                },
                Ok((v.next_id, true)),
            ),
        }
    }
}

/// The registry of regional servers.
pub struct RegionalRegistry {
    regions: Vec<(String, RegionalInfo)>,
    id_to_name: HashMap<u8, String>,
    next_id: u8,
}

impl View for RegionalRegistry {
    type V = RegistryView;

    closed spec fn view(&self) -> RegistryView {
        RegistryView {
            regions: self.regions@.map_values(
                |e: (String, RegionalInfo)| (e.0@, e.1.region_id, e.1.sync_address@),
            ),
            ids: self.id_to_name@.map_values(|s: String| s@),
            next_id: self.next_id,
        }
    }
}

impl RegionalRegistry {
    /// The registry is well formed.
    pub open spec fn wf(&self) -> bool {
        registry_wf(self@)
    }

    /// An empty registry; the first region will get id 1.
    pub fn new() -> (r: Self)
        ensures
            r@.regions == Seq::<RegionView>::empty(),
            r@.ids == Map::<u8, Seq<char>>::empty(),
            r@.next_id == 1,
            r.wf(),
    {
        let r = RegionalRegistry { regions: Vec::new(), id_to_name: HashMap::new(), next_id: 1 };
        assert(r@.regions =~= Seq::<RegionView>::empty());
        assert(r@.ids =~= Map::<u8, Seq<char>>::empty());
        r
    }

    /// The position of region `name`.
    fn position(&self, name: &str) -> (r: Option<usize>)
        ensures
            r is Some <==> find_region(self@.regions, name@) is Some,
            r matches Some(i) ==> i < self@.regions.len() && find_region(self@.regions, name@)
                == Some(self@.regions[i as int]),
            r is None ==> forall|i: int| 0 <= i < self@.regions.len() ==> #[trigger] self@.regions[i].0 != name@,
    {
        let ghost s = self@.regions;
        let mut i: usize = 0;
        assert(s.skip(0) =~= s);
        while i < self.regions.len()
            invariant
                i <= self.regions.len(),
                s == self@.regions,
                s.len() == self.regions.len(),
                find_region(s, name@) == find_region(s.skip(i as int), name@),
                forall|k: int| 0 <= k < i ==> #[trigger] s[k].0 != name@,
            decreases self.regions.len() - i,
        {
            assert(s.skip(i as int)[0] == s[i as int]);
            if crate::text::same_text(self.regions[i].0.as_str(), name) {
                return Some(i);
            }
            assert(s.skip(i as int).drop_first() =~= s.skip(i + 1));
            i = i + 1;
        }
        assert(s.skip(i as int) =~= Seq::<RegionView>::empty());
        None
    }

    /// Registers a regional server, or gives back its id if the name is
    /// known: `(id, whether it is new)`. A name that is not made of
    /// alphanumeric characters, `_` and `-` is refused with an error of kind
    /// `InvalidInput` whose payload says why.
    pub fn register(&mut self, name: String, sync_address: String) -> (r: Result<(u8, bool), io::Error>)
        requires
            old(self).wf(),
        ensures
            final(self).wf(),
            final(self)@ == register_step(old(self)@, name@, sync_address@).0,
            r is Ok <==> register_step(old(self)@, name@, sync_address@).1 is Ok,
            r matches Ok(x) ==> register_step(old(self)@, name@, sync_address@).1 == Ok::<
                (u8, bool),
                Seq<char>,
            >(x),
            r matches Err(e) ==> e == invalid_input_error(invalid_region_message(name@))
                && kind_is_invalid_input(e),
            ascii_text(name@) ==> (valid_region_name(name@) <==> ascii_region_name(name@)),
    {
        if !is_valid_region_name(name.as_str()) {
            let mut message = "Nombre de región inválido: '".to_owned();
            crate::fmt::string_append(&mut message, name.as_str());
            crate::fmt::string_append(&mut message, "'. Debe ser alfanumérico");
            return Err(invalid_input(message));
        }
        match self.position(name.as_str()) {
            Some(i) => {
                return Ok((self.regions[i].1.region_id, false));
            },
            None => {},
        }
        let ghost old_view = self@;
        let region_id = self.next_id;
        self.next_id = self.next_id.wrapping_add(1);
        let info = RegionalInfo { region_id, sync_address };
        let entry_name = name.clone();
        self.id_to_name.insert(region_id, name);
        let ghost sync_view = info.sync_address@;
        self.regions.push((entry_name, info));
        assert(self@.regions =~= old_view.regions.push((entry_name@, region_id, sync_view)));
        assert(self@.ids =~= old_view.ids.insert(region_id, entry_name@));
        assert(self.next_id == (self@.regions.len() + 1) % 256) by {
            assert(old_view.next_id == (old_view.regions.len() + 1) % 256);
        }
        Ok((region_id, true))
    }

    /// The id of region `name`.
    pub fn get_region_id(&self, name: &str) -> (r: Option<u8>)
        ensures
            r is Some <==> find_region(self@.regions, name@) is Some,
            r matches Some(id) ==> id == find_region(self@.regions, name@).unwrap().1,
    {
        match self.position(name) {
            Some(i) => Some(self.regions[i].1.region_id),
            None => None,
        }
    }

    /// The synchronisation address of region `name`.
    pub fn get_sync_address(&self, name: &str) -> (r: Option<String>)
        ensures
            r is Some <==> find_region(self@.regions, name@) is Some,
            r matches Some(a) ==> a@ == find_region(self@.regions, name@).unwrap().2,
    {
        match self.position(name) {
            Some(i) => Some(self.regions[i].1.sync_address.clone()),
            None => None,
        }
    }

    /// The names of all registered regions, in the order they registered.
    pub fn list_regions(&self) -> (r: Vec<String>)
        ensures
            r.deep_view() == self@.regions.map_values(|e: RegionView| e.0),
    {
        let ghost s = self@.regions;
        let mut names: Vec<String> = Vec::new();
        let mut i: usize = 0;
        while i < self.regions.len()
            invariant
                i <= self.regions.len(),
                s == self@.regions,
                s.len() == self.regions.len(),
                names.deep_view() == s.take(i as int).map_values(|e: RegionView| e.0),
            decreases self.regions.len() - i,
        {
            let n = self.regions[i].0.clone();
            let ghost before = names.deep_view();
            names.push(n);
            assert(names.deep_view() =~= before.push(n@));
            i = i + 1;
            assert(names.deep_view() =~= s.take(i as int).map_values(|e: RegionView| e.0));
        }
        assert(s.take(i as int) =~= s);
        names
    }
}

/// After a region registers, looking it up by name gives the id that the
/// registration returned and the address it was registered with.
pub proof fn lemma_register_then_lookup(v: RegistryView, name: Seq<char>, sync_address: Seq<char>)
    requires
        registry_wf(v),
        valid_region_name(name),
        find_region(v.regions, name) is None,
    ensures
        ({
            let (v2, r) = register_step(v, name, sync_address);
            &&& r == Ok::<(u8, bool), Seq<char>>((v.next_id, true))
            &&& find_region(v2.regions, name) == Some((name, v.next_id, sync_address))
        }),
{
    lemma_find_region_push(v.regions, name, (name, v.next_id, sync_address));
}

/// Registering a known region again returns the same id, says it is not
/// new, and changes nothing.
pub proof fn lemma_register_twice(v: RegistryView, name: Seq<char>, a: Seq<char>, b: Seq<char>)
    requires
        registry_wf(v),
        valid_region_name(name),
    ensures
        ({
            let (v1, r1) = register_step(v, name, a);
            let (v2, r2) = register_step(v1, name, b);
            &&& r1 matches Ok(x1)
            &&& r2 == Ok::<(u8, bool), Seq<char>>((x1.0, false))
            &&& v2 == v1
        }),
{
    if find_region(v.regions, name) is None {
        lemma_find_region_push(v.regions, name, (name, v.next_id, a));
    }
}

/// While at most 256 regions are registered, no two share an id.
pub proof fn lemma_region_ids_distinct(v: RegistryView)
    requires
        registry_wf(v),
        v.regions.len() <= 256,
    ensures
        forall|i: int, j: int|
            0 <= i < j < v.regions.len() ==> #[trigger] v.regions[i].1 != #[trigger] v.regions[j].1,
{
    assert forall|i: int, j: int| 0 <= i < j < v.regions.len() implies #[trigger] v.regions[i].1
        != #[trigger] v.regions[j].1 by {
        assert(v.regions[i].1 == (i + 1) % 256);
        assert(v.regions[j].1 == (j + 1) % 256);
    }
}

proof fn lemma_find_region_push(s: Seq<RegionView>, name: Seq<char>, e: RegionView)
    requires
        find_region(s, name) is None,
        e.0 == name,
    ensures
        find_region(s.push(e), name) == Some(e),
    decreases s.len(),
{
    if s.len() == 0 {
    } else {
        assert(s.push(e).drop_first() =~= s.drop_first().push(e));
        lemma_find_region_push(s.drop_first(), name, e);
    }
}

} // verus!
