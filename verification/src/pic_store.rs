//! Image data from a Pic Store instance: ordering the output versions of an image and pairing
//! each with its double-size version for `srcset`.
use vstd::prelude::*;

verus! {

/// What asking Pic Store for an image gave.
#[derive(Debug)]
pub enum GetImageResult {
    /// The image was uploaded and is being processed; this is its id.
    Uploaded(String),
    /// The image exists already.
    Exists(PicStoreImageData),
}

/// The id of a newly created image.
#[derive(Debug, Clone)]
pub struct NewBaseImageResult {
    pub id: String,
}

/// An image and its output versions.
#[derive(Debug)]
pub struct PicStoreImageData {
    pub id: String,
    pub status: String,
    pub url: String,
    pub width: Option<u32>,
    pub height: Option<u32>,
    pub alt_text: String,
    pub file_size: Option<u32>,
    pub output: Vec<PicStoreImageOutput>,
}

/// One output version of an image.
#[derive(Debug)]
pub struct PicStoreImageOutput {
    pub id: String,
    pub url: String,
    pub srcset: Option<String>,
    pub status: String,
    pub file_size: Option<u32>,
    pub width: Option<u32>,
    pub height: Option<u32>,
    pub format: String,
}

/// The size an output is ordered by; an unknown size counts as 0.
pub open spec fn size_key(o: PicStoreImageOutput) -> u32 {
    match o.file_size {
        Some(s) => s,
        None => 0,
    }
}

pub open spec fn sorted_by_size(s: Seq<PicStoreImageOutput>) -> bool {
    forall|i: int, j: int| 0 <= i < j < s.len() ==> size_key(#[trigger] s[i]) <= size_key(#[trigger] s[j])
}

fn min_size_index(v: &Vec<PicStoreImageOutput>) -> (r: usize)
    requires
        v@.len() > 0,
    ensures
        r < v@.len(),
        forall|j: int| 0 <= j < v@.len() ==> size_key(v@[r as int]) <= size_key(#[trigger] v@[j]),
{
    let mut best: usize = 0;
    let mut i: usize = 1;
    while i < v.len()
        invariant
            v@.len() > 0,
            best < v@.len(),
            1 <= i <= v@.len(),
            forall|j: int| 0 <= j < i ==> size_key(v@[best as int]) <= size_key(#[trigger] v@[j]),
        decreases v@.len() - i,
    {
        let kb: u32 = match v[best].file_size {
            Some(s) => s,
            None => 0,
        };
        let ki: u32 = match v[i].file_size {
            Some(s) => s,
            None => 0,
        };
        if ki < kb {
            best = i;
        }
        i = i + 1;
    }
    best
}

/// The outputs ordered by file size, smallest first.
pub fn sort_outputs_by_size(v: Vec<PicStoreImageOutput>) -> (r: Vec<PicStoreImageOutput>)
    ensures
        r@.to_multiset() == v@.to_multiset(),
        sorted_by_size(r@),
{
    broadcast use vstd::seq_lib::group_to_multiset_ensures;

    let mut rest = v;
    let mut out: Vec<PicStoreImageOutput> = Vec::new();
    let ghost orig = rest@;
    while rest.len() > 0
        invariant
            out@.to_multiset().add(rest@.to_multiset()) == orig.to_multiset(),
            sorted_by_size(out@),
            forall|a: int, b: int|
                0 <= a < out@.len() && 0 <= b < rest@.len() ==> size_key(#[trigger] out@[a])
                    <= size_key(#[trigger] rest@[b]),
        decreases rest@.len(),
    {
        let k = min_size_index(&rest);
        let ghost r0 = rest@;
        let ghost o0 = out@;
        let x = rest.remove(k);
        assert(rest@ == r0.remove(k as int));
        out.push(x);
        assert(out@ == o0.push(x));
        assert forall|a: int, b: int|
            0 <= a < out@.len() && 0 <= b < rest@.len() implies size_key(#[trigger] out@[a])
            <= size_key(#[trigger] rest@[b]) by {
            if b < k {
                assert(rest@[b] == r0[b]);
            } else {
                assert(rest@[b] == r0[b + 1]);
            }
            if a < o0.len() {
                assert(out@[a] == o0[a]);
            }
        }
        assert forall|i: int, j: int| 0 <= i < j < out@.len() implies size_key(#[trigger] out@[i])
            <= size_key(#[trigger] out@[j]) by {
            if j == o0.len() {
                assert(out@[i] == o0[i]);
                assert(size_key(o0[i]) <= size_key(r0[k as int]));
            } else {
                assert(out@[i] == o0[i]);
                assert(out@[j] == o0[j]);
            }
        }
        proof {
            o0.to_multiset_ensures();
            r0.to_multiset_ensures();
            assert(o0.push(x).to_multiset() =~= o0.to_multiset().insert(x));
            assert(r0.remove(k as int).to_multiset() =~= r0.to_multiset().remove(r0[k as int]));
        }
        assert(out@.to_multiset() =~= o0.to_multiset().insert(x));
        assert(rest@.to_multiset() =~= r0.to_multiset().remove(r0[k as int]));
        assert(r0.to_multiset().count(x) > 0) by {
            assert(r0.contains(x));
        }
        assert(out@.to_multiset().add(rest@.to_multiset()) =~= o0.to_multiset().add(r0.to_multiset()));
    }
    assert(rest@.to_multiset() =~= vstd::multiset::Multiset::<PicStoreImageOutput>::empty());
    assert(out@.to_multiset() =~= out@.to_multiset().add(rest@.to_multiset()));
    out
}

pub open spec fn width_or_zero(o: PicStoreImageOutput) -> int {
    match o.width {
        Some(w) => w as int,
        None => 0,
    }
}

pub open spec fn height_or_zero(o: PicStoreImageOutput) -> int {
    match o.height {
        Some(h) => h as int,
        None => 0,
    }
}

/// First output, from `j` on, whose width (0 if unknown) is `target`.
pub open spec fn first_with_width(outs: Seq<PicStoreImageOutput>, target: int, j: int) -> Option<int>
    decreases outs.len() - j,
{
    if j < 0 || j >= outs.len() {
        None
    } else if width_or_zero(outs[j]) == target {
        Some(j)
    } else {
        first_with_width(outs, target, j + 1)
    }
}

/// First output, from `j` on, whose height (0 if unknown) is `target`.
pub open spec fn first_with_height(outs: Seq<PicStoreImageOutput>, target: int, j: int) -> Option<int>
    decreases outs.len() - j,
{
    if j < 0 || j >= outs.len() {
        None
    } else if height_or_zero(outs[j]) == target {
        Some(j)
    } else {
        first_with_height(outs, target, j + 1)
    }
}

/// The URL of the double-size version of output `i`, or empty when it already has a `srcset` or
/// no output is twice as wide (or, failing that, twice as high).
pub open spec fn double_url(outs: Seq<PicStoreImageOutput>, i: int) -> Seq<char> {
    let o = outs[i];
    if o.srcset is Some {
        Seq::empty()
    } else {
        let by_width = match o.width {
            Some(w) => first_with_width(outs, 2 * w, 0),
            None => None,
        };
        match by_width {
            Some(j) => outs[j].url@,
            None => {
                let by_height = match o.height {
                    Some(h) => first_with_height(outs, 2 * h, 0),
                    None => None,
                };
                match by_height {
                    Some(j) => outs[j].url@,
                    None => Seq::empty(),
                }
            },
        }
    }
}

/// The `srcset` of an output: its URL, followed by that of its double-size version if it has one.
pub open spec fn srcset_for(url: Seq<char>, double: Seq<char>) -> Seq<char> {
    if double.len() == 0 {
        url
    } else {
        url + seq![',', ' '] + double + seq![' ', '2', 'x']
    }
}

/// Doubling a width or height that is looked at stays within `u32`.
pub open spec fn doubles_fit(outs: Seq<PicStoreImageOutput>) -> bool {
    forall|i: int|
        0 <= i < outs.len() && (#[trigger] outs[i]).srcset is None ==> (outs[i].width matches Some(
            w,
        ) ==> w <= 0x7fff_ffff) && (outs[i].height matches Some(h) ==> h <= 0x7fff_ffff)
}

fn find_width(outs: &Vec<PicStoreImageOutput>, target: u32) -> (r: Option<usize>)
    ensures
        match r {
            Some(j) => first_with_width(outs@, target as int, 0) == Some(j as int) && j < outs@.len(),
            None => first_with_width(outs@, target as int, 0) is None,
        },
{
    let mut j: usize = 0;
    while j < outs.len()
        invariant
            j <= outs@.len(),
            first_with_width(outs@, target as int, 0) == first_with_width(outs@, target as int, j as int),
        decreases outs@.len() - j,
    {
        let w: u32 = match outs[j].width {
            Some(w) => w,
            None => 0,
        };
        if w == target {
            return Some(j);
        }
        j = j + 1;
    }
    None
}

fn find_height(outs: &Vec<PicStoreImageOutput>, target: u32) -> (r: Option<usize>)
    ensures
        match r {
            Some(j) => first_with_height(outs@, target as int, 0) == Some(j as int) && j < outs@.len(),
            None => first_with_height(outs@, target as int, 0) is None,
        },
{
    let mut j: usize = 0;
    while j < outs.len()
        invariant
            j <= outs@.len(),
            first_with_height(outs@, target as int, 0) == first_with_height(outs@, target as int, j as int),
        decreases outs@.len() - j,
    {
        let h: u32 = match outs[j].height {
            Some(h) => h,
            None => 0,
        };
        if h == target {
            return Some(j);
        }
        j = j + 1;
    }
    None
}

fn double_url_exec(outs: &Vec<PicStoreImageOutput>, i: usize) -> (r: String)
    requires
        i < outs@.len(),
        doubles_fit(outs@),
    ensures
        r@ == double_url(outs@, i as int),
{
    let o = &outs[i];
    if o.srcset.is_some() {
        return String::new();
    }
    assert(outs@[i as int].srcset is None);
    if let Some(w) = o.width {
        if let Some(j) = find_width(outs, w * 2) {
            return outs[j].url.clone();
        }
    }
    if let Some(h) = o.height {
        if let Some(j) = find_height(outs, h * 2) {
            return outs[j].url.clone();
        }
    }
    String::new()
}

impl PicStoreImageData {
    /// Give each output a `srcset`: its own URL, with the URL of a version twice its width (or,
    /// failing that, height) marked `2x` when there is one. An output that already has a
    /// `srcset` keeps only its own URL.
    pub fn combine_2x(self) -> (r: PicStoreImageData)
        requires
            doubles_fit(self.output@),
        ensures
            r.id == self.id,
            r.status == self.status,
            r.url == self.url,
            r.width == self.width,
            r.height == self.height,
            r.alt_text == self.alt_text,
            r.file_size == self.file_size,
            r.output@.len() == self.output@.len(),
            forall|i: int|
                0 <= i < r.output@.len() ==> {
                    let a = #[trigger] r.output@[i];
                    let b = self.output@[i];
                    &&& a.id == b.id
                    &&& a.url == b.url
                    &&& a.status == b.status
                    &&& a.file_size == b.file_size
                    &&& a.width == b.width
                    &&& a.height == b.height
                    &&& a.format == b.format
                    &&& a.srcset matches Some(s) && s@ == srcset_for(
                        b.url@,
                        double_url(self.output@, i),
                    )
                },
    {
        let ghost outs = self.output@;
        let mut doubles: Vec<String> = Vec::new();
        let mut i: usize = 0;
        while i < self.output.len()
            invariant
                i <= self.output@.len(),
                outs == self.output@,
                doubles_fit(outs),
                doubles@.len() == i,
                forall|k: int| 0 <= k < i ==> (#[trigger] doubles@[k])@ == double_url(outs, k),
            decreases self.output@.len() - i,
        {
            doubles.push(double_url_exec(&self.output, i));
            i = i + 1;
        }
        let PicStoreImageData { id, status, url, width, height, alt_text, file_size, output } = self;
        let mut rest = output;
        let mut out: Vec<PicStoreImageOutput> = Vec::new();
        let n = rest.len();
        let mut k: usize = 0;
        proof {
            reveal_strlit(", ");
            reveal_strlit(" 2x");
            assert(", "@ =~= seq![',', ' ']);
            assert(" 2x"@ =~= seq![' ', '2', 'x']);
        }
        while k < n
            invariant
                n == outs.len(),
                k <= n,
                rest@ == outs.subrange(k as int, n as int),
                doubles@.len() == n,
                forall|m: int| 0 <= m < n ==> (#[trigger] doubles@[m])@ == double_url(outs, m),
                out@.len() == k,
                ", "@ == seq![',', ' '],
                " 2x"@ == seq![' ', '2', 'x'],
                forall|m: int|
                    0 <= m < k ==> {
                        let a = #[trigger] out@[m];
                        let b = outs[m];
                        &&& a.id == b.id
                        &&& a.url == b.url
                        &&& a.status == b.status
                        &&& a.file_size == b.file_size
                        &&& a.width == b.width
                        &&& a.height == b.height
                        &&& a.format == b.format
                        &&& a.srcset matches Some(s) && s@ == srcset_for(
                            b.url@,
                            double_url(outs, m),
                        )
                    },
            decreases n - k,
        {
            let o = rest.remove(0);
            assert(o == outs[k as int]);
            let d = &doubles[k];
            let s = if d.as_str().is_empty() {
                o.url.clone()
            } else {
                let mut s = o.url.clone();
                s.append(", ");
                s.append(d.as_str());
                s.append(" 2x");
                s
            };
            let PicStoreImageOutput { id: oid, url: ourl, status: ostatus, file_size: ofs, width: ow, height: oh, format: of, .. } = o;
            out.push(
                PicStoreImageOutput {
                    id: oid,
                    url: ourl,
                    srcset: Some(s),
                    status: ostatus,
                    file_size: ofs,
                    width: ow,
                    height: oh,
                    format: of,
                },
            );
            assert(rest@ =~= outs.subrange(k + 1, n as int));
            k = k + 1;
        }
        PicStoreImageData { id, status, url, width, height, alt_text, file_size, output: out }
    }
}

/// Where Pic Store should keep an uploaded file: under the configured location prefix, if there
/// is one.
pub open spec fn upload_location(prefix: Option<Seq<char>>, filename: Seq<char>) -> Option<Seq<char>> {
    match prefix {
        Some(p) => Some(p + seq!['/'] + filename),
        None => None,
    }
}

fn append_text(s: &mut String, t: &str)
    ensures
        final(s)@ == old(s)@ + t@,
{
    let cs = crate::chars::to_chars(t);
    let ghost s0 = s@;
    let mut i: usize = 0;
    while i < cs.len()
        invariant
            i <= cs@.len(),
            cs@ == t@,
            s@ == s0 + cs@.take(i as int),
        decreases cs@.len() - i,
    {
        crate::chars::push_char(s, cs[i]);
        assert(cs@.take(i + 1) =~= cs@.take(i as int).push(cs@[i as int]));
        i = i + 1;
    }
    assert(cs@.take(cs@.len() as int) =~= cs@);
}

/// The location and the upload profile of a new image: the location under the prefix (see
/// `upload_location`), and the profile the page asks for, or else the configured one.
pub fn upload_settings(
    filename: &str,
    location_prefix: Option<&str>,
    upload_profile: Option<&str>,
    default_profile: Option<&str>,
) -> (r: (Option<String>, Option<String>))
    ensures
        match (r.0, location_prefix) {
            (Some(l), Some(p)) => upload_location(Some(p@), filename@) == Some(l@),
            (None, None) => true,
            _ => false,
        },
        match (r.1, upload_profile, default_profile) {
            (Some(q), Some(p), _) => q@ == p@,
            (Some(q), None, Some(d)) => q@ == d@,
            (None, None, None) => true,
            _ => false,
        },
{
    let location = match location_prefix {
        Some(p) => {
            let mut l = String::new();
            append_text(&mut l, p);
            crate::chars::push_char(&mut l, '/');
            append_text(&mut l, filename);
            Some(l)
        },
        None => None,
    };
    let profile = match upload_profile {
        Some(p) => Some(p.to_string()),
        None => match default_profile {
            Some(d) => Some(d.to_string()),
            None => None,
        },
    };
    (location, profile)
}

/// Whether Pic Store has finished processing an image with this status.
pub fn is_ready(status: &str) -> (r: bool)
    ensures
        r == (status@ == "ready"@),
{
    crate::chars::chars_equal(&crate::chars::to_chars(status), "ready")
}

/// Where getting the data of an image stands.
#[derive(Debug, Clone, PartialEq, Eq)]
pub enum ImageState {
    /// Nothing is known yet: the metadata database is asked first.
    Start,
    /// The database does not have it: Pic Store is asked, and given the image if it lacks it.
    AskedPicStore,
    /// Uploaded under this id, and waiting for Pic Store to process it.
    Processing(String),
    /// The data is known.
    Done,
}

/// What came back from the outside.
#[derive(Debug)]
pub enum ImageEvent {
    /// Whether the metadata database has the image.
    Database(bool),
    /// Pic Store has the image already.
    Exists,
    /// Pic Store took the image for processing, under this id.
    Uploaded(String),
    /// Whether Pic Store has finished processing the uploaded image.
    Status(bool),
}

/// What to do next.
#[derive(Debug, Clone, PartialEq, Eq)]
pub enum ImageAction {
    /// Ask Pic Store for the image, uploading it if it does not have it.
    AskPicStore,
    /// Use the data that the database has.
    UseRecorded,
    /// Record the data from Pic Store in the database, and use it.
    RecordAndUse,
    /// Ask Pic Store, after a pause, whether the uploaded image is ready.
    WaitForProcessing,
    /// The event does not belong to this state; nothing is done.
    Ignore,
}

/// The next state and action after an event: the database first, then Pic Store, then waiting
/// until Pic Store has processed an upload.
pub open spec fn image_step_spec(state: ImageState, event: ImageEvent) -> (ImageState, ImageAction) {
    match (state, event) {
        (ImageState::Start, ImageEvent::Database(true)) => (ImageState::Done, ImageAction::UseRecorded),
        (ImageState::Start, ImageEvent::Database(false)) => (ImageState::AskedPicStore, ImageAction::AskPicStore),
        (ImageState::AskedPicStore, ImageEvent::Exists) => (ImageState::Done, ImageAction::RecordAndUse),
        (ImageState::AskedPicStore, ImageEvent::Uploaded(id)) => (ImageState::Processing(id), ImageAction::WaitForProcessing),
        (ImageState::Processing(id), ImageEvent::Status(false)) => (ImageState::Processing(id), ImageAction::WaitForProcessing),
        (ImageState::Processing(_), ImageEvent::Status(true)) => (ImageState::Done, ImageAction::RecordAndUse),
        (st, _) => (st, ImageAction::Ignore),
    }
}

/// Take one step of getting an image's data (see `image_step_spec`).
pub fn image_step(state: ImageState, event: ImageEvent) -> (r: (ImageState, ImageAction))
    ensures
        r == image_step_spec(state, event),
{
    match (state, event) {
        (ImageState::Start, ImageEvent::Database(true)) => (ImageState::Done, ImageAction::UseRecorded),
        (ImageState::Start, ImageEvent::Database(false)) => (ImageState::AskedPicStore, ImageAction::AskPicStore),
        (ImageState::AskedPicStore, ImageEvent::Exists) => (ImageState::Done, ImageAction::RecordAndUse),
        (ImageState::AskedPicStore, ImageEvent::Uploaded(id)) => (ImageState::Processing(id), ImageAction::WaitForProcessing),
        (ImageState::Processing(id), ImageEvent::Status(false)) => (ImageState::Processing(id), ImageAction::WaitForProcessing),
        (ImageState::Processing(_), ImageEvent::Status(true)) => (ImageState::Done, ImageAction::RecordAndUse),
        (st, _) => (st, ImageAction::Ignore),
    }
}

/// Once the data is known, nothing moves the state any more.
pub proof fn law_done_stays_done(event: ImageEvent)
    ensures
        image_step_spec(ImageState::Done, event) == (ImageState::Done, ImageAction::Ignore),
{
}

/// Whether browsers without `<picture>` show an output's format.
pub open spec fn is_fallback_format(o: PicStoreImageOutput) -> bool {
    o.format@ == "jpg"@ || o.format@ == "png"@
}

/// The first output from `j` on in a format that browsers without `<picture>` show.
pub open spec fn first_fallback(s: Seq<PicStoreImageOutput>, j: int) -> Option<int>
    decreases s.len() - j,
{
    if j < 0 || j >= s.len() {
        None
    } else if is_fallback_format(s[j]) {
        Some(j)
    } else {
        first_fallback(s, j + 1)
    }
}

/// The output for the `<img>` inside a `<picture>`: the first JPEG or PNG one, or else the
/// first one; nothing for an image without outputs.
pub open spec fn fallback_index(s: Seq<PicStoreImageOutput>) -> Option<int> {
    match first_fallback(s, 0) {
        Some(i) => Some(i),
        None => if s.len() > 0 {
            Some(0)
        } else {
            None
        },
    }
}

/// The position of the fallback output (see `fallback_index`).
pub fn fallback_output(outputs: &Vec<PicStoreImageOutput>) -> (r: Option<usize>)
    ensures
        match r {
            Some(i) => fallback_index(outputs@) == Some(i as int),
            None => fallback_index(outputs@) is None,
        },
{
    let mut j: usize = 0;
    while j < outputs.len()
        invariant
            j <= outputs@.len(),
            first_fallback(outputs@, 0) == first_fallback(outputs@, j as int),
        decreases outputs@.len() - j,
    {
        let f = crate::chars::to_chars(outputs[j].format.as_str());
        if crate::chars::chars_equal(&f, "jpg") || crate::chars::chars_equal(&f, "png") {
            return Some(j);
        }
        j = j + 1;
    }
    if outputs.len() > 0 {
        Some(0)
    } else {
        None
    }
}

} // verus!
