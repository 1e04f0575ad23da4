//! Image identifiers, push timestamps, and the registry image URI grammar.

use vstd::prelude::*;
use vstd::string::*;

verus! {

/// The mathematical value of an [`EcrImageId`]: its four fields as text.
pub struct ImageRef {
    pub registry_id: Seq<char>,
    pub region: Seq<char>,
    pub repository_name: Seq<char>,
    pub image_tag: Seq<char>,
}

/// An image identifier in the registry.
#[derive(Eq, Hash, Debug, Clone)]
pub struct EcrImageId {
    /// The account id of the registry holding the image.
    pub registry_id: String,
    /// The region of the registry holding the image.
    pub region: String,
    /// The name of the image's repository.
    pub repository_name: String,
    /// The tag of the image.
    pub image_tag: String,
}

impl View for EcrImageId {
    type V = ImageRef;

    open spec fn view(&self) -> ImageRef {
        ImageRef {
            registry_id: self.registry_id@,
            region: self.region@,
            repository_name: self.repository_name@,
            image_tag: self.image_tag@,
        }
    }
}

impl PartialEq for EcrImageId {
    fn eq(&self, other: &EcrImageId) -> (r: bool) {
        self.registry_id == other.registry_id && self.region == other.region
            && self.repository_name == other.repository_name && self.image_tag
            == other.image_tag
    }
}

impl vstd::std_specs::cmp::PartialEqSpecImpl for EcrImageId {
    open spec fn obeys_eq_spec() -> bool {
        true
    }

    open spec fn eq_spec(&self, other: &EcrImageId) -> bool {
        self@ == other@
    }
}

impl EcrImageId {
    pub fn new(registry_id: &str, region: &str, repository_name: &str, image_tag: &str) -> (r:
        EcrImageId)
        ensures
            r@ == (ImageRef {
                registry_id: registry_id@,
                region: region@,
                repository_name: repository_name@,
                image_tag: image_tag@,
            }),
    {
        EcrImageId {
            registry_id: registry_id.to_owned(),
            region: region.to_owned(),
            repository_name: repository_name.to_owned(),
            image_tag: image_tag.to_owned(),
        }
    }

    /// A copy with the same fields.
    pub fn copy(&self) -> (r: EcrImageId)
        ensures
            r@ == self@,
    {
        EcrImageId {
            registry_id: self.registry_id.clone(),
            region: self.region.clone(),
            repository_name: self.repository_name.clone(),
            image_tag: self.image_tag.clone(),
        }
    }
}

/// The identifiers that `v` holds, as a set.
pub open spec fn id_set(v: Seq<EcrImageId>) -> Set<ImageRef> {
    Set::new(|x: ImageRef| exists|k: int| 0 <= k < v.len() && (#[trigger] v[k])@ == x)
}

/// Nanoseconds in one day.
pub const NANOS_PER_DAY: i128 = 86_400_000_000_000;

/// Nanoseconds in one second.
pub const NANOS_PER_SEC: i128 = 1_000_000_000;

/// A point in time: whole seconds since the Unix epoch (negative before it)
/// and nanoseconds past that second.
#[derive(Clone, Copy, Debug, PartialEq, Eq, Structural)]
pub struct Timestamp {
    pub secs: i64,
    pub nanos: u32,
}

impl View for Timestamp {
    /// Nanoseconds since the Unix epoch.
    type V = int;

    open spec fn view(&self) -> int {
        self.secs as int * NANOS_PER_SEC + self.nanos as int
    }
}

impl Timestamp {
    pub fn new(secs: i64, nanos: u32) -> (r: Timestamp)
        requires
            nanos < 1_000_000_000,
        ensures
            r.secs == secs,
            r.nanos == nanos,
    {
        Timestamp { secs, nanos }
    }

    pub fn from_secs(secs: i64) -> (r: Timestamp)
        ensures
            r.secs == secs,
            r.nanos == 0,
            r@ == secs * NANOS_PER_SEC,
    {
        Timestamp { secs, nanos: 0 }
    }

    /// Nanoseconds since the Unix epoch.
    pub fn as_nanos(&self) -> (r: i128)
        ensures
            r == self@,
    {
        assert(-0x8000_0000_0000_0000 * NANOS_PER_SEC <= self.secs * NANOS_PER_SEC
            <= 0x7fff_ffff_ffff_ffff * NANOS_PER_SEC) by (nonlinear_arith)
            requires
                -0x8000_0000_0000_0000 <= self.secs <= 0x7fff_ffff_ffff_ffff,
        ;
        self.secs as i128 * NANOS_PER_SEC + self.nanos as i128
    }
}

/// An image in the registry with the time it was pushed.
#[derive(Debug, Clone)]
pub struct EcrImageDetail {
    /// The image identifier.
    pub id: EcrImageId,
    /// When the image was pushed to its repository.
    pub image_pushed_at: Timestamp,
}

impl EcrImageDetail {
    pub fn new(
        registry_id: &str,
        region: &str,
        repository_name: &str,
        image_tag: &str,
        image_pushed_at: Timestamp,
    ) -> (r: EcrImageDetail)
        ensures
            r.id@ == (ImageRef {
                registry_id: registry_id@,
                region: region@,
                repository_name: repository_name@,
                image_tag: image_tag@,
            }),
            r.image_pushed_at == image_pushed_at,
    {
        EcrImageDetail {
            id: EcrImageId::new(registry_id, region, repository_name, image_tag),
            image_pushed_at,
        }
    }
}

pub open spec fn is_digit(c: char) -> bool {
    '0' <= c <= '9'
}

pub open spec fn is_region_char(c: char) -> bool {
    ('a' <= c <= 'z') || ('0' <= c <= '9') || c == '-'
}

/// `.dkr.ecr.`, between the registry id and the region.
pub open spec fn dkr_infix() -> Seq<char> {
    seq!['.', 'd', 'k', 'r', '.', 'e', 'c', 'r', '.']
}

/// `.amazonaws.com/`, between the region and the repository name.
pub open spec fn domain_infix() -> Seq<char> {
    seq!['.', 'a', 'm', 'a', 'z', 'o', 'n', 'a', 'w', 's', '.', 'c', 'o', 'm', '/']
}

/// The parts of an image reference have the shapes a registry URI allows:
/// a twelve-digit registry id, a region of lower-case letters, digits and
/// `-`, and a repository name and tag that are non-empty and hold no `:`.
pub open spec fn well_formed_ref(id: ImageRef) -> bool {
    &&& id.registry_id.len() == 12
    &&& forall|i: int| 0 <= i < 12 ==> is_digit(#[trigger] id.registry_id[i])
    &&& id.region.len() > 0
    &&& forall|i: int| 0 <= i < id.region.len() ==> is_region_char(#[trigger] id.region[i])
    &&& id.repository_name.len() > 0
    &&& forall|i: int| 0 <= i < id.repository_name.len() ==> #[trigger] id.repository_name[i] != ':'
    &&& id.image_tag.len() > 0
    &&& forall|i: int| 0 <= i < id.image_tag.len() ==> #[trigger] id.image_tag[i] != ':'
}

/// The URI `<registry_id>.dkr.ecr.<region>.amazonaws.com/<repository>:<tag>`.
pub open spec fn image_uri(id: ImageRef) -> Seq<char> {
    id.registry_id + dkr_infix() + id.region + domain_infix()
        + id.repository_name + seq![':'] + id.image_tag
}

/// `uri` names the registry image `id`.
pub open spec fn is_uri_of(uri: Seq<char>, id: ImageRef) -> bool {
    well_formed_ref(id) && uri == image_uri(id)
}

/// Where each part of an image URI stands.
proof fn lemma_uri_layout(id: ImageRef)
    requires
        id.registry_id.len() == 12,
    ensures
        ({
            let u = image_uri(id);
            let a = 21 + id.region.len() as int;
            let b = a + 15;
            let j = b + id.repository_name.len() as int;
            &&& u.len() == j + 1 + id.image_tag.len()
            &&& u.subrange(0, 12) == id.registry_id
            &&& u.subrange(12, 21) == dkr_infix()
            &&& u.subrange(21, a) == id.region
            &&& u.subrange(a, b) == domain_infix()
            &&& u.subrange(b, j) == id.repository_name
            &&& u[j] == ':'
            &&& u.subrange(j + 1, u.len() as int) == id.image_tag
        }),
{
    let u = image_uri(id);
    let a = 21 + id.region.len() as int;
    let b = a + 15;
    let j = b + id.repository_name.len() as int;
    assert(u.subrange(0, 12) =~= id.registry_id);
    assert(u.subrange(12, 21) =~= dkr_infix());
    assert(u.subrange(21, a) =~= id.region);
    assert(u.subrange(a, b) =~= domain_infix());
    assert(u.subrange(b, j) =~= id.repository_name);
    assert(u.subrange(j + 1, u.len() as int) =~= id.image_tag);
}

/// Whether `s` holds the characters of `lit` from position `start` on.
fn has_chars_at(s: &str, n: usize, start: usize, lit: &str) -> (r: bool)
    requires
        n == s@.len(),
    ensures
        r == (start + lit@.len() <= n && s@.subrange(start as int, start + lit@.len()) == lit@),
{
    let m = lit.unicode_len();
    if start > n || m > n - start {
        return false;
    }
    let mut i: usize = 0;
    while i < m
        invariant
            m == lit@.len(),
            start + m <= n,
            n == s@.len(),
            i <= m,
            forall|k: int| 0 <= k < i ==> s@[start + k] == lit@[k],
        decreases m - i,
    {
        if s.get_char(start + i) != lit.get_char(i) {
            assert(s@.subrange(start as int, start + m)[i as int] != lit@[i as int]);
            return false;
        }
        i = i + 1;
    }
    assert(s@.subrange(start as int, start + m) =~= lit@);
    true
}

/// What holds, position by position, of a URI that names an image.
proof fn lemma_parse_facts(uri: Seq<char>, id: ImageRef)
    requires
        is_uri_of(uri, id),
    ensures
        ({
            let a = 21 + id.region.len() as int;
            let b = a + 15;
            let j = b + id.repository_name.len() as int;
            &&& uri.len() == j + 1 + id.image_tag.len()
            &&& id.image_tag.len() > 0
            &&& forall|k: int| 0 <= k < 12 ==> is_digit(#[trigger] uri[k])
            &&& uri.subrange(12, 21) == dkr_infix()
            &&& a > 21
            &&& forall|k: int| 21 <= k < a ==> #[trigger] uri[k] != '.' && is_region_char(uri[k])
            &&& uri[a] == '.'
            &&& uri.subrange(a, b) == domain_infix()
            &&& j > b
            &&& forall|k: int| b <= k < j ==> #[trigger] uri[k] != ':'
            &&& uri[j] == ':'
            &&& forall|k: int| j < k < uri.len() ==> #[trigger] uri[k] != ':'
            &&& uri.subrange(0, 12) == id.registry_id
            &&& uri.subrange(21, a) == id.region
            &&& uri.subrange(b, j) == id.repository_name
            &&& uri.subrange(j + 1, uri.len() as int) == id.image_tag
        }),
{
    lemma_uri_layout(id);
    let a = 21 + id.region.len() as int;
    let b = a + 15;
    let j = b + id.repository_name.len() as int;
    assert forall|k: int| 0 <= k < 12 implies is_digit(#[trigger] uri[k]) by {
        assert(uri[k] == uri.subrange(0, 12)[k]);
    }
    assert forall|k: int| 21 <= k < a implies #[trigger] uri[k] != '.' && is_region_char(
        uri[k],
    ) by {
        assert(uri[k] == uri.subrange(21, a)[k - 21]);
    }
    assert(uri[a] == uri.subrange(a, b)[0]);
    assert forall|k: int| b <= k < j implies #[trigger] uri[k] != ':' by {
        assert(uri[k] == uri.subrange(b, j)[k - b]);
    }
    assert forall|k: int| j < k < uri.len() implies #[trigger] uri[k] != ':' by {
        assert(uri[k] == uri.subrange(j + 1, uri.len() as int)[k - j - 1]);
    }
}

/// The first position at or after `from` that holds `c`, or `n` if none does.
fn first_index_of(s: &str, n: usize, from: usize, c: char) -> (r: usize)
    requires
        n == s@.len(),
        from <= n,
    ensures
        from <= r <= n,
        forall|k: int| from <= k < r ==> #[trigger] s@[k] != c,
        r < n ==> s@[r as int] == c,
{
    let mut i = from;
    while i < n
        invariant
            from <= i <= n,
            n == s@.len(),
            forall|k: int| from <= k < i ==> #[trigger] s@[k] != c,
        decreases n - i,
    {
        if s.get_char(i) == c {
            return i;
        }
        i = i + 1;
    }
    i
}

/// Whether every character in positions `from..to` is a digit.
fn all_digits(s: &str, from: usize, to: usize) -> (r: bool)
    requires
        from <= to <= s@.len(),
    ensures
        r == forall|k: int| from <= k < to ==> is_digit(#[trigger] s@[k]),
{
    let mut i = from;
    while i < to
        invariant
            from <= i <= to <= s@.len(),
            forall|k: int| from <= k < i ==> is_digit(#[trigger] s@[k]),
        decreases to - i,
    {
        let c = s.get_char(i);
        if !('0' <= c && c <= '9') {
            return false;
        }
        i = i + 1;
    }
    true
}

/// Whether every character in positions `from..to` may stand in a region.
fn all_region_chars(s: &str, from: usize, to: usize) -> (r: bool)
    requires
        from <= to <= s@.len(),
    ensures
        r == forall|k: int| from <= k < to ==> is_region_char(#[trigger] s@[k]),
{
    let mut i = from;
    while i < to
        invariant
            from <= i <= to <= s@.len(),
            forall|k: int| from <= k < i ==> is_region_char(#[trigger] s@[k]),
        decreases to - i,
    {
        let c = s.get_char(i);
        if !(('a' <= c && c <= 'z') || ('0' <= c && c <= '9') || c == '-') {
            return false;
        }
        i = i + 1;
    }
    true
}

/// A URI whose parts stand at the positions that the grammar gives names
/// the image made of those parts.
proof fn lemma_uri_from_parts(uri: Seq<char>, a: int, j: int)
    requires
        21 < a,
        a + 15 < j,
        j + 1 < uri.len(),
        forall|k: int| 0 <= k < 12 ==> is_digit(#[trigger] uri[k]),
        uri.subrange(12, 21) == dkr_infix(),
        forall|k: int| 21 <= k < a ==> is_region_char(#[trigger] uri[k]),
        uri.subrange(a, a + 15) == domain_infix(),
        forall|k: int| a + 15 <= k < j ==> #[trigger] uri[k] != ':',
        uri[j] == ':',
        forall|k: int| j < k < uri.len() ==> #[trigger] uri[k] != ':',
    ensures
        is_uri_of(
            uri,
            ImageRef {
                registry_id: uri.subrange(0, 12),
                region: uri.subrange(21, a),
                repository_name: uri.subrange(a + 15, j),
                image_tag: uri.subrange(j + 1, uri.len() as int),
            },
        ),
{
    let id = ImageRef {
        registry_id: uri.subrange(0, 12),
        region: uri.subrange(21, a),
        repository_name: uri.subrange(a + 15, j),
        image_tag: uri.subrange(j + 1, uri.len() as int),
    };
    let b = a + 15;
    lemma_uri_layout(id);
    let u = image_uri(id);
    assert forall|k: int| 0 <= k < uri.len() implies #[trigger] u[k] == uri[k] by {
        if k < 12 {
            assert(u[k] == u.subrange(0, 12)[k]);
        } else if k < 21 {
            assert(u[k] == u.subrange(12, 21)[k - 12]);
            assert(uri[k] == uri.subrange(12, 21)[k - 12]);
        } else if k < a {
            assert(u[k] == u.subrange(21, a)[k - 21]);
        } else if k < b {
            assert(u[k] == u.subrange(a, b)[k - a]);
            assert(uri[k] == uri.subrange(a, b)[k - a]);
        } else if k < j {
            assert(u[k] == u.subrange(b, j)[k - b]);
        } else if k == j {
        } else {
            assert(u[k] == u.subrange(j + 1, u.len() as int)[k - j - 1]);
        }
    }
    assert(uri =~= u);
}

impl EcrImageId {
    /// Parses a registry image URI,
    /// `<registry_id>.dkr.ecr.<region>.amazonaws.com/<repository>:<tag>`.
    /// `None` when `uri` has another shape: such an image lies outside the
    /// registry under management.
    pub fn from_image_uri_opt(uri: &str) -> (r: Option<EcrImageId>)
        ensures
            r matches Some(id) ==> is_uri_of(uri@, id@),
            r is None ==> forall|id: ImageRef| !is_uri_of(uri@, id),
    {
        let n = uri.unicode_len();
        if n < 21 || !all_digits(uri, 0, 12) {
            proof {
                assert forall|id: ImageRef| !is_uri_of(uri@, id) by {
                    if is_uri_of(uri@, id) {
                        lemma_parse_facts(uri@, id);
                    }
                }
            }
            return None;
        }
        let dkr = has_chars_at(uri, n, 12, ".dkr.ecr.");
        proof {
            reveal_strlit(".dkr.ecr.");
            assert(".dkr.ecr."@ =~= dkr_infix());
        }
        // The region runs up to the first '.' after the infix.
        let a = first_index_of(uri, n, 21, '.');
        if !dkr || a == 21 || n - a < 15 || !all_region_chars(uri, 21, a) {
            proof {
                assert forall|id: ImageRef| !is_uri_of(uri@, id) by {
                    if is_uri_of(uri@, id) {
                        lemma_parse_facts(uri@, id);
                    }
                }
            }
            return None;
        }
        let domain = has_chars_at(uri, n, a, ".amazonaws.com/");
        proof {
            reveal_strlit(".amazonaws.com/");
            assert(".amazonaws.com/"@ =~= domain_infix());
        }
        let b = a + 15;
        // The repository name runs up to the first ':', the tag after it.
        let j = first_index_of(uri, n, b, ':');
        if !domain || j == b || n - j < 2 || first_index_of(uri, n, j + 1, ':') != n {
            proof {
                assert forall|id: ImageRef| !is_uri_of(uri@, id) by {
                    if is_uri_of(uri@, id) {
                        lemma_parse_facts(uri@, id);
                        let a0 = 21 + id.region.len() as int;
                        let j0 = a0 + 15 + id.repository_name.len() as int;
                        assert(a == a0);
                        assert(j == j0);
                    }
                }
            }
            return None;
        }
        proof {
            lemma_uri_from_parts(uri@, a as int, j as int);
        }
        Some(
            EcrImageId {
                registry_id: uri.substring_char(0, 12).to_owned(),
                region: uri.substring_char(21, a).to_owned(),
                repository_name: uri.substring_char(b, j).to_owned(),
                image_tag: uri.substring_char(j + 1, n).to_owned(),
            },
        )
    }
}

/// A URI names at most one image.
pub proof fn lemma_uri_names_one_image(uri: Seq<char>, a: ImageRef, b: ImageRef)
    requires
        is_uri_of(uri, a),
        is_uri_of(uri, b),
    ensures
        a == b,
{
    lemma_parse_facts(uri, a);
    lemma_parse_facts(uri, b);
    let ra = 21 + a.region.len() as int;
    let rb = 21 + b.region.len() as int;
    assert(ra == rb);
    let ja = ra + 15 + a.repository_name.len() as int;
    let jb = rb + 15 + b.repository_name.len() as int;
    assert(ja == jb);
}

/// The images that a list of URIs names, as a set.
pub open spec fn named_images(uris: Seq<String>) -> Set<ImageRef> {
    Set::new(|x: ImageRef| exists|i: int| 0 <= i < uris.len() && is_uri_of((#[trigger] uris[i])@, x))
}

/// Parses each URI of `uris`, keeping those that name a registry image.
pub fn parse_image_uris(uris: &Vec<String>) -> (r: Vec<EcrImageId>)
    ensures
        id_set(r@) == named_images(uris@),
{
    let mut out: Vec<EcrImageId> = Vec::new();
    let mut i: usize = 0;
    while i < uris.len()
        invariant
            i <= uris@.len(),
            id_set(out@) == named_images(uris@.subrange(0, i as int)),
        decreases uris@.len() - i,
    {
        let ghost before = out@;
        let ghost pre = uris@.subrange(0, i as int);
        let ghost next = uris@.subrange(0, i + 1);
        let parsed = EcrImageId::from_image_uri_opt(uris[i].as_str());
        match parsed {
            Some(id) => out.push(id),
            None => {},
        }
        proof {
            assert forall|x: ImageRef| id_set(out@).contains(x) <==> named_images(next).contains(
                x,
            ) by {
                if id_set(out@).contains(x) {
                    let k = choose|k: int| 0 <= k < out@.len() && (#[trigger] out@[k])@ == x;
                    if k < before.len() {
                        assert(out@[k] == before[k]);
                        assert(id_set(before).contains(x));
                        let m = choose|m: int| 0 <= m < pre.len() && is_uri_of((#[trigger] pre[m])@, x);
                        assert(next[m] == pre[m]);
                    } else {
                        assert(next[i as int] == uris@[i as int]);
                    }
                }
                if named_images(next).contains(x) {
                    let m = choose|m: int| 0 <= m < next.len() && is_uri_of((#[trigger] next[m])@, x);
                    if m < i {
                        assert(pre[m] == next[m]);
                        assert(named_images(pre).contains(x));
                        let k = choose|k: int| 0 <= k < before.len() && (#[trigger] before[k])@ == x;
                        assert(out@[k] == before[k]);
                    } else {
                        assert(next[m] == uris@[i as int]);
                        if let Some(id) = parsed {
                            lemma_uri_names_one_image(uris@[i as int]@, id@, x);
                            assert(out@[out@.len() - 1]@ == x);
                        }
                    }
                }
            }
            assert(id_set(out@) =~= named_images(next));
        }
        i = i + 1;
    }
    assert(uris@.subrange(0, uris@.len() as int) =~= uris@);
    out
}

/// Whether a deployed function's package type, as the platform names it,
/// is a container image (`Image`); only such functions reference images.
pub fn is_container_image(package_type: &str) -> (r: bool)
    ensures
        r == (package_type@ == "Image"@),
{
    let n = package_type.unicode_len();
    proof {
        reveal_strlit("Image");
    }
    let same = n == 5 && has_chars_at(package_type, n, 0, "Image");
    proof {
        if n == 5 {
            assert(package_type@.subrange(0, 5) =~= package_type@);
        }
    }
    same
}

} // verus!
