use vstd::prelude::*;
use vstd::string::StringExecFns;

verus! {

/// Options for generating code from schema files.
pub struct Config {
    /// Paths of the map fields that become ordered maps.
    pub btree_map: Vec<String>,
    /// Attributes placed before matching types: (path, attribute).
    pub type_attributes: Vec<(String, String)>,
    /// Attributes placed before matching fields: (path, attribute).
    pub field_attributes: Vec<(String, String)>,
    /// Whether well-known types come from a crate rather than being
    /// generated.
    pub prost_types: bool,
    /// Whether an enum's name is stripped from the front of its variants.
    pub strip_enum_prefix: bool,
}

/// Texts as character sequences.
pub open spec fn texts_view(texts: Seq<String>) -> Seq<Seq<char>> {
    Seq::new(texts.len(), |i: int| texts[i]@)
}

/// Pairs of texts as pairs of character sequences.
pub open spec fn pairs_view(pairs: Seq<(String, String)>) -> Seq<(Seq<char>, Seq<char>)> {
    Seq::new(pairs.len(), |i: int| (pairs[i].0@, pairs[i].1@))
}

impl Config {
    /// The default options: no ordered maps, no attributes, well-known
    /// types from their crate, enum prefixes stripped.
    pub fn new() -> (r: Config)
        ensures
            r.btree_map@.len() == 0,
            r.type_attributes@.len() == 0,
            r.field_attributes@.len() == 0,
            r.prost_types,
            r.strip_enum_prefix,
    {
        Config::default()
    }

    /// Sets the paths whose map fields become ordered maps, replacing those
    /// set before. A path with a leading `.` is fully qualified; one without
    /// is matched as a suffix.
    pub fn btree_map(&mut self, paths: &[&str]) -> (r: &mut Self)
        ensures
            *final(r) == *final(self),
            texts_view(r.btree_map@) == Seq::new(paths@.len(), |i: int| paths@[i]@),
            r.type_attributes == old(self).type_attributes,
            r.field_attributes == old(self).field_attributes,
            r.prost_types == old(self).prost_types,
            r.strip_enum_prefix == old(self).strip_enum_prefix,
    {
        let mut list: Vec<String> = Vec::new();
        let mut i: usize = 0;
        while i < paths.len()
            invariant
                i <= paths@.len(),
                list@.len() == i,
                texts_view(list@) == Seq::new(i as nat, |k: int| paths@[k]@),
            decreases paths@.len() - i,
        {
            let p = String::from_str(paths[i]);
            let ghost before = list@;
            list.push(p);
            assert(list@[i as int]@ == paths@[i as int]@);
            assert forall|k: int| 0 <= k < i implies list@[k]@ == paths@[k]@ by {
                assert(list@[k] == before[k]);
                assert(texts_view(before)[k] == paths@[k]@);
            }
            i = i + 1;
            assert(texts_view(list@) =~= Seq::new(i as nat, |k: int| paths@[k]@));
        }
        self.btree_map = list;
        self
    }

    /// Adds an attribute for the fields that `path` matches; calls add up.
    pub fn field_attribute(&mut self, path: &str, attribute: &str) -> (r: &mut Self)
        ensures
            *final(r) == *final(self),
            pairs_view(r.field_attributes@) == pairs_view(old(self).field_attributes@).push(
                (path@, attribute@),
            ),
            r.btree_map == old(self).btree_map,
            r.type_attributes == old(self).type_attributes,
            r.prost_types == old(self).prost_types,
            r.strip_enum_prefix == old(self).strip_enum_prefix,
    {
        let ghost before = self.field_attributes@;
        self.field_attributes.push((String::from_str(path), String::from_str(attribute)));
        assert(pairs_view(self.field_attributes@) =~= pairs_view(before).push((path@, attribute@)));
        self
    }

    /// Adds an attribute for the messages, enums and oneofs that `path`
    /// matches; calls add up.
    pub fn type_attribute(&mut self, path: &str, attribute: &str) -> (r: &mut Self)
        ensures
            *final(r) == *final(self),
            pairs_view(r.type_attributes@) == pairs_view(old(self).type_attributes@).push(
                (path@, attribute@),
            ),
            r.btree_map == old(self).btree_map,
            r.field_attributes == old(self).field_attributes,
            r.prost_types == old(self).prost_types,
            r.strip_enum_prefix == old(self).strip_enum_prefix,
    {
        let ghost before = self.type_attributes@;
        self.type_attributes.push((String::from_str(path), String::from_str(attribute)));
        assert(pairs_view(self.type_attributes@) =~= pairs_view(before).push((path@, attribute@)));
        self
    }

    /// Generates the well-known types from their schema files instead of
    /// taking them from their crate.
    pub fn compile_well_known_types(&mut self) -> (r: &mut Self)
        ensures
            *final(r) == *final(self),
            !r.prost_types,
            r.btree_map == old(self).btree_map,
            r.type_attributes == old(self).type_attributes,
            r.field_attributes == old(self).field_attributes,
            r.strip_enum_prefix == old(self).strip_enum_prefix,
    {
        self.prost_types = false;
        self
    }

    /// Keeps an enum's name at the front of its variants' names.
    pub fn retain_enum_prefix(&mut self) -> (r: &mut Self)
        ensures
            *final(r) == *final(self),
            !r.strip_enum_prefix,
            r.btree_map == old(self).btree_map,
            r.type_attributes == old(self).type_attributes,
            r.field_attributes == old(self).field_attributes,
            r.prost_types == old(self).prost_types,
    {
        self.strip_enum_prefix = false;
        self
    }
}

impl Default for Config {
    fn default() -> (r: Config)
        ensures
            r.btree_map@.len() == 0,
            r.type_attributes@.len() == 0,
            r.field_attributes@.len() == 0,
            r.prost_types,
            r.strip_enum_prefix,
    {
        Config {
            btree_map: Vec::new(),
            type_attributes: Vec::new(),
            field_attributes: Vec::new(),
            prost_types: true,
            strip_enum_prefix: true,
        }
    }
}

} // verus!
