use vstd::prelude::*;

use crate::error::PlanError;

verus! {

/// The declarative configuration: an ordered list of scale factors to render
/// at, and an optional thread count for the dispatcher.
#[derive(Debug)]
pub struct RenderYaml {
    pub scales: Vec<u32>,
    pub threads: Option<usize>,
}

impl PartialEq for RenderYaml {
    fn eq(&self, other: &Self) -> (r: bool) {
        let s = self.scales == other.scales;
        let t = self.threads == other.threads;
        proof {
            if s {
                assert(self.scales@ =~= other.scales@);
            }
            if self.scales@ == other.scales@ {
                assert(forall|i: int|
                    0 <= i < self.scales@.len() ==> self.scales@[i] == other.scales@[i]);
            }
        }
        s && t
    }
}

impl vstd::std_specs::cmp::PartialEqSpecImpl for RenderYaml {
    open spec fn obeys_eq_spec() -> bool {
        true
    }

    open spec fn eq_spec(&self, other: &Self) -> bool {
        self.scales@ == other.scales@ && self.threads == other.threads
    }
}

impl Eq for RenderYaml {

}

impl Default for RenderYaml {
    /// The configuration used when no file is found: the identity scale
    /// alone, and no thread count.
    fn default() -> (r: RenderYaml)
        ensures
            r.scales@ == seq![1u32],
            r.threads is None,
    {
        RenderYaml { scales: default_scales(), threads: None }
    }
}

/// The scale list used when none is given: the identity scale alone.
pub fn default_scales() -> (r: Vec<u32>)
    ensures
        r@ == seq![1u32],
{
    let mut v: Vec<u32> = Vec::new();
    v.push(1);
    proof {
        assert(v@ =~= seq![1u32]);
    }
    v
}

// ---------------------------------------------------------------------------
// Reading the configuration text. Parsing proper is serde_yaml's; each of its
// results is deterministic in its arguments, so each carries a name, and the
// shape of the parsed document is judged here, on plain values, one step per
// trusted call.
// ---------------------------------------------------------------------------

#[verifier::external_type_specification]
#[verifier::external_body]
pub struct ExYamlValue(serde_yaml::Value);

#[verifier::external_type_specification]
#[verifier::external_body]
pub struct ExYamlError(serde_yaml::Error);

/// The value tree that a text parses to, or None when the text is not valid
/// YAML.
pub uninterp spec fn yaml_doc(s: Seq<char>) -> Option<serde_yaml::Value>;

/// Whether a value is a mapping (seen through a tag, as serde_yaml's
/// accessors see it).
pub uninterp spec fn yaml_is_mapping_spec(v: serde_yaml::Value) -> bool;

/// Whether a value is null.
pub uninterp spec fn yaml_is_null_spec(v: serde_yaml::Value) -> bool;

/// The value under a string key, when the indexed value is a mapping holding
/// that key; None otherwise.
pub uninterp spec fn yaml_get_spec(v: serde_yaml::Value, key: Seq<char>) -> Option<
    serde_yaml::Value,
>;

/// The element list of a sequence value (seen through a tag); None when the
/// value is no sequence.
pub uninterp spec fn yaml_as_sequence_spec(v: serde_yaml::Value) -> Option<Seq<serde_yaml::Value>>;

/// The value as an unsigned integer when it is one that fits in u64 (seen
/// through a tag); None otherwise.
pub uninterp spec fn yaml_as_u64_spec(v: serde_yaml::Value) -> Option<u64>;

/// Relies on serde_yaml::from_str::<Value>: parses YAML text into the
/// crate's generic value tree, or fails when the text is not valid YAML; the
/// result depends on the text alone.
#[verifier::external_body]
fn yaml_from_str(s: &str) -> (r: Result<serde_yaml::Value, serde_yaml::Error>)
    ensures
        r is Ok <==> yaml_doc(s@) is Some,
        r is Ok ==> r->Ok_0 == yaml_doc(s@)->0,
{
    serde_yaml::from_str::<serde_yaml::Value>(s)
}

/// Relies on serde_yaml::Value::is_mapping: true exactly when the value is a
/// mapping, a tagged one included.
#[verifier::external_body]
fn yaml_is_mapping(v: &serde_yaml::Value) -> (r: bool)
    ensures
        r == yaml_is_mapping_spec(*v),
{
    v.is_mapping()
}

/// Relies on serde_yaml::Value::is_null: true exactly when the value is null.
#[verifier::external_body]
fn yaml_is_null(v: &serde_yaml::Value) -> (r: bool)
    ensures
        r == yaml_is_null_spec(*v),
{
    v.is_null()
}

/// Relies on serde_yaml::Value::get: the value under a string key when this
/// value is a mapping holding that key, and None otherwise.
#[verifier::external_body]
fn yaml_get<'a>(v: &'a serde_yaml::Value, key: &str) -> (r: Option<&'a serde_yaml::Value>)
    ensures
        r is Some <==> yaml_get_spec(*v, key@) is Some,
        r is Some ==> *r->0 == yaml_get_spec(*v, key@)->0,
{
    v.get(key)
}

/// Relies on serde_yaml::Value::as_sequence: the element list when the value
/// is a sequence, a tagged one included, and None otherwise.
#[verifier::external_body]
fn yaml_as_sequence<'a>(v: &'a serde_yaml::Value) -> (r: Option<&'a Vec<serde_yaml::Value>>)
    ensures
        r is Some <==> yaml_as_sequence_spec(*v) is Some,
        r is Some ==> r->0@ == yaml_as_sequence_spec(*v)->0,
{
    v.as_sequence()
}

/// Relies on serde_yaml::Value::as_u64: the value as an unsigned integer when
/// it is one that fits in u64 (a tagged one included), and None otherwise.
#[verifier::external_body]
fn yaml_as_u64(v: &serde_yaml::Value) -> (r: Option<u64>)
    ensures
        r == yaml_as_u64_spec(*v),
{
    v.as_u64()
}

// ---------------------------------------------------------------------------
// The configuration a text denotes, over the names above.
// ---------------------------------------------------------------------------

/// The key of the scale list.
pub open spec fn scales_key() -> Seq<char> {
    seq!['s', 'c', 'a', 'l', 'e', 's']
}

/// The key of the thread count.
pub open spec fn threads_key() -> Seq<char> {
    seq!['t', 'h', 'r', 'e', 'a', 'd', 's']
}

/// The scale values of a sequence's elements from position `i` on: each must
/// be an unsigned integer that fits in u32; None as soon as one is not.
pub open spec fn scales_from(items: Seq<serde_yaml::Value>, i: int) -> Option<Seq<u32>>
    decreases items.len() - i,
{
    if i >= items.len() {
        Some(Seq::empty())
    } else {
        let n = yaml_as_u64_spec(items[i]);
        if n is Some && n->0 <= u32::MAX {
            match scales_from(items, i + 1) {
                Some(rest) => Some(seq![(n->0) as u32] + rest),
                None => None,
            }
        } else {
            None
        }
    }
}

/// The scale list a parsed document carries: the default when the key is
/// absent, the judged sequence when it is one, and None when it is malformed.
pub open spec fn yaml_cfg_scales(doc: serde_yaml::Value) -> Option<Seq<u32>> {
    match yaml_get_spec(doc, scales_key()) {
        None => Some(seq![1u32]),
        Some(sv) => match yaml_as_sequence_spec(sv) {
            None => None,
            Some(items) => scales_from(items, 0),
        },
    }
}

/// The thread count a parsed document carries: nothing when the key is
/// absent or null, the judged integer when it is one, and None when it is
/// malformed.
pub open spec fn yaml_cfg_threads(doc: serde_yaml::Value) -> Option<Option<usize>> {
    match yaml_get_spec(doc, threads_key()) {
        None => Some(None),
        Some(tv) => if yaml_is_null_spec(tv) {
            Some(None)
        } else {
            if yaml_as_u64_spec(tv) is Some && yaml_as_u64_spec(tv)->0 <= usize::MAX {
                Some(Some((yaml_as_u64_spec(tv)->0) as usize))
            } else {
                None
            }
        },
    }
}

/// The configuration a text denotes: the text must parse to a mapping whose
/// `scales` and `threads` entries are well-formed as above; None when it is
/// malformed in any of these ways.
pub open spec fn yaml_cfg(s: Seq<char>) -> Option<(Seq<u32>, Option<usize>)> {
    match yaml_doc(s) {
        None => None,
        Some(doc) => if !yaml_is_mapping_spec(doc) {
            None
        } else {
            match yaml_cfg_scales(doc) {
                None => None,
                Some(sc) => match yaml_cfg_threads(doc) {
                    None => None,
                    Some(th) => Some((sc, th)),
                },
            }
        },
    }
}

/// The scale list of a denoted configuration.
pub open spec fn cfg_scales(s: Seq<char>) -> Seq<u32> {
    (yaml_cfg(s)->0).0
}

/// The thread count of a denoted configuration.
pub open spec fn cfg_threads(s: Seq<char>) -> Option<usize> {
    (yaml_cfg(s)->0).1
}

/// What reading a selected configuration file's text yields: a read failure
/// when the text is missing; otherwise exactly the configuration the text
/// denotes, or the hard parse error when it denotes none.
pub open spec fn yaml_read_post(
    r: Result<Option<RenderYaml>, PlanError>,
    content: Option<Seq<char>>,
) -> bool {
    match content {
        None => r matches Err(e) && e is Io,
        Some(t) => {
            &&& (r is Ok <==> yaml_cfg(t) is Some)
            &&& (r matches Ok(o) ==> (o matches Some(y) && y.scales@ == cfg_scales(t)
                && y.threads == cfg_threads(t)))
            &&& (r matches Err(e) ==> e is ConfigParse)
        },
    }
}

// ---------------------------------------------------------------------------
// The executable judges.
// ---------------------------------------------------------------------------

/// Judges one scale entry as handed back by the reader: a scale is valid
/// exactly when the entry was an unsigned integer that fits in u32.
pub fn scale_from_item(n: Option<u64>) -> (r: Option<u32>)
    ensures
        r is Some <==> n is Some && n->0 <= u32::MAX,
        r is Some ==> r->0 == n->0 as u32,
{
    match n {
        Some(v) => if v <= u32::MAX as u64 {
            Some(v as u32)
        } else {
            None
        },
        None => None,
    }
}

/// Judges the thread-count entry as handed back by the reader: valid exactly
/// when the entry was an unsigned integer that fits in usize.
pub fn thread_from_item(n: Option<u64>) -> (r: Option<usize>)
    ensures
        r is Some <==> n is Some && n->0 <= usize::MAX,
        r is Some ==> r->0 == n->0 as usize,
{
    match n {
        Some(v) => if v <= usize::MAX as u64 {
            Some(v as usize)
        } else {
            None
        },
        None => None,
    }
}

/// Parses configuration text: succeeds exactly when the text denotes a
/// configuration (`yaml_cfg`), and then returns exactly it. The document
/// must be a mapping; an absent `scales` key means the default scale list, a
/// present one must be a sequence of unsigned integers that fit in u32; an
/// absent or null `threads` key means no thread count, a present one must be
/// an unsigned integer that fits in usize. Anything else is a parse error.
pub fn parse_render_yaml(text: &str) -> (r: Result<RenderYaml, PlanError>)
    ensures
        r is Ok <==> yaml_cfg(text@) is Some,
        r is Ok ==> r->Ok_0.scales@ == cfg_scales(text@) && r->Ok_0.threads == cfg_threads(
            text@,
        ),
        r is Err ==> r->Err_0 is ConfigParse,
{
    let v = match yaml_from_str(text) {
        Ok(v) => v,
        Err(_) => {
            return Err(PlanError::ConfigParse);
        },
    };
    proof {
        assert(yaml_doc(text@) is Some && yaml_doc(text@)->0 == v);
    }
    if !yaml_is_mapping(&v) {
        return Err(PlanError::ConfigParse);
    }
    proof {
        reveal_strlit("scales");
        reveal_strlit("threads");
        assert("scales"@ =~= scales_key());
        assert("threads"@ =~= threads_key());
    }
    let scales: Vec<u32> = match yaml_get(&v, "scales") {
        None => default_scales(),
        Some(sv) => match yaml_as_sequence(sv) {
            None => {
                return Err(PlanError::ConfigParse);
            },
            Some(items) => {
                let ghost iseq = items@;
                let mut out: Vec<u32> = Vec::new();
                let mut i: usize = 0;
                let n: usize = items.len();
                while i < n
                    invariant
                        0 <= i <= n,
                        n == items.len(),
                        iseq == items@,
                        scales_from(iseq, 0) is Some <==> scales_from(iseq, i as int) is Some,
                        scales_from(iseq, 0) is Some ==> scales_from(iseq, 0)->0 == out@
                            + scales_from(iseq, i as int)->0,
                        scales_from(iseq, 0) is None ==> yaml_cfg(text@) is None,
                    decreases n - i,
                {
                    let ghost preout = out@;
                    let n64 = yaml_as_u64(&items[i]);
                    match scale_from_item(n64) {
                        Some(s) => {
                            out.push(s);
                            proof {
                                if scales_from(iseq, 0) is Some {
                                    assert(scales_from(iseq, i as int)->0 == seq![s] + scales_from(
                                        iseq,
                                        i + 1,
                                    )->0);
                                    assert(preout + scales_from(iseq, i as int)->0 =~= out@
                                        + scales_from(iseq, i + 1)->0);
                                }
                            }
                        },
                        None => {
                            proof {
                                assert(scales_from(iseq, i as int) is None);
                            }
                            return Err(PlanError::ConfigParse);
                        },
                    }
                    i = i + 1;
                }
                proof {
                    assert(scales_from(iseq, n as int)->0 =~= Seq::<u32>::empty());
                    assert(out@ + scales_from(iseq, n as int)->0 =~= out@);
                }
                out
            },
        },
    };
    proof {
        assert(yaml_cfg_scales(v) == Some(scales@));
    }
    let threads: Option<usize> = match yaml_get(&v, "threads") {
        None => None,
        Some(tv) => {
            if yaml_is_null(tv) {
                None
            } else {
                match thread_from_item(yaml_as_u64(tv)) {
                    Some(t) => Some(t),
                    None => {
                        return Err(PlanError::ConfigParse);
                    },
                }
            }
        },
    };
    proof {
        assert(yaml_cfg_threads(v) == Some(threads));
        assert(yaml_cfg(text@) == Some((scales@, threads)));
    }
    Ok(RenderYaml { scales, threads })
}

} // verus!
