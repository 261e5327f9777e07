//! Named resources, images and shaders, kept in one table.

use vstd::hash_map::StringHashMap;
use vstd::prelude::*;

verus! {

/// The image crate's `DynamicImage`, a decoded image. The library carries it
/// and never looks inside.
#[verifier::external_type_specification]
#[verifier::external_body]
pub struct ExDynamicImage(image::DynamicImage);

/// The image crate's `ImageError`, the reason a decoding failed. The library
/// carries it and never looks inside.
#[verifier::external_type_specification]
#[verifier::external_body]
pub struct ExImageError(image::ImageError);

/// std's `PathBuf`, a file path. The library carries it and never looks
/// inside.
#[verifier::external_type_specification]
#[verifier::external_body]
pub struct ExPathBuf(std::path::PathBuf);

/// The kinds of resource.
#[derive(Copy, Clone, Debug, PartialEq, Eq, Structural)]
pub enum ResType {
    Image,
    Sound,
    Shader,
}

/// What a reload reports.
#[derive(Copy, Clone)]
pub struct ReloadInfo {}

/// What every resource carries besides its content.
#[derive(Copy, Clone)]
pub struct GenericMetadata {}

/// Why a resource could not take new content.
#[derive(Debug)]
pub enum ResourceError {
    /// The bytes are no image that the decoder understands.
    Decode(image::ImageError),
}

/// What all resources offer.
pub trait Resource {
    /// What a reload takes in: the content of the resource's file.
    type Source;

    /// The name of the resource.
    spec fn spec_id(&self) -> Seq<char>;

    /// The metadata of the resource.
    fn get_generic_metadata(&self) -> GenericMetadata;

    /// The name of the resource.
    fn id(&self) -> (id: &String)
        ensures
            id@ == self.spec_id(),
    ;

    /// Replaces the content by what `source` holds. The name stays.
    fn reload(&mut self, source: Self::Source) -> (r: Result<ReloadInfo, ResourceError>)
        ensures
            final(self).spec_id() == old(self).spec_id(),
    ;

    /// Whether the resource holds content.
    fn is_loaded(&self) -> bool;
}

/// Whether the image crate's decoder accepts `bytes` as an image: it guesses
/// the format from the first bytes and decodes the rest within fixed limits,
/// so the answer depends on the bytes alone.
pub uninterp spec fn image_decodes(bytes: Seq<u8>) -> bool;

/// Decodes an image with the image crate's `load_from_memory`. Whether an
/// image or an error comes back is taken to depend on the bytes alone;
/// nothing is claimed of what the image or the error holds.
#[verifier::external_body]
fn decode_image(bytes: &[u8]) -> (r: Result<image::DynamicImage, image::ImageError>)
    ensures
        r is Ok == image_decodes(bytes@),
{
    image::load_from_memory(bytes)
}

/// An image, decoded, with the path of the file it came from.
pub struct ImageResource {
    path: std::path::PathBuf,
    generic_metadata: GenericMetadata,
    id: String,
    image: Option<image::DynamicImage>,
}

impl ImageResource {
    #[verifier::type_invariant]
    spec fn loaded(self) -> bool {
        self.image is Some
    }

    /// The decoded image.
    pub closed spec fn spec_image(&self) -> image::DynamicImage {
        self.image.unwrap()
    }

    /// The path of the image's file.
    pub closed spec fn spec_path(&self) -> std::path::PathBuf {
        self.path
    }

    /// An image resource holding what decoding gave, or the error where
    /// decoding failed.
    pub fn from_decoded(
        id: String,
        path: std::path::PathBuf,
        decoded: Result<image::DynamicImage, image::ImageError>,
    ) -> (r: Result<Self, ResourceError>)
        ensures
            match (r, decoded) {
                (Ok(res), Ok(image)) => res.spec_id() == id@ && res.spec_path() == path
                    && res.spec_image() == image,
                (Err(ResourceError::Decode(e)), Err(cause)) => e == cause,
                _ => false,
            },
    {
        match decoded {
            Ok(image) => Ok(
                Self { path, generic_metadata: GenericMetadata {  }, id, image: Some(image) },
            ),
            Err(cause) => Err(ResourceError::Decode(cause)),
        }
    }

    /// An image resource named `id` for the file at `path`, whose content is
    /// `bytes`. Succeeds exactly where the decoder accepts the bytes.
    pub fn new(id: String, path: std::path::PathBuf, bytes: &[u8]) -> (r: Result<
        Self,
        ResourceError,
    >)
        ensures
            r is Ok == image_decodes(bytes@),
            r matches Ok(res) ==> res.spec_id() == id@ && res.spec_path() == path,
    {
        Self::from_decoded(id, path, decode_image(bytes))
    }

    /// The decoded image.
    pub fn get(&self) -> (image: &image::DynamicImage)
        ensures
            *image == self.spec_image(),
    {
        proof {
            use_type_invariant(self);
        }
        self.image.as_ref().unwrap()
    }

    /// The path of the image's file.
    pub fn path(&self) -> (path: &std::path::PathBuf)
        ensures
            *path == self.spec_path(),
    {
        &self.path
    }

    /// Takes the image that decoding gave; where decoding failed the resource
    /// keeps what it had and the error is handed on.
    pub fn install(&mut self, decoded: Result<image::DynamicImage, image::ImageError>) -> (r:
        Result<ReloadInfo, ResourceError>)
        ensures
            final(self).spec_id() == old(self).spec_id(),
            final(self).spec_path() == old(self).spec_path(),
            match (r, decoded) {
                (Ok(_), Ok(image)) => final(self).spec_image() == image,
                (Err(ResourceError::Decode(e)), Err(cause)) => {
                    &&& e == cause
                    &&& final(self).spec_image() == old(self).spec_image()
                },
                _ => false,
            },
    {
        match decoded {
            Ok(image) => {
                self.image = Some(image);
                Ok(ReloadInfo {  })
            },
            Err(cause) => Err(ResourceError::Decode(cause)),
        }
    }
}

impl Resource for ImageResource {
    type Source = Vec<u8>;

    closed spec fn spec_id(&self) -> Seq<char> {
        self.id@
    }

    fn get_generic_metadata(&self) -> GenericMetadata {
        self.generic_metadata
    }

    fn id(&self) -> (id: &String) {
        &self.id
    }

    /// Decodes `source` and takes the image. Succeeds exactly where the
    /// decoder accepts the bytes; where it does not, the resource keeps the
    /// image it had.
    fn reload(&mut self, source: Vec<u8>) -> (r: Result<ReloadInfo, ResourceError>)
        ensures
            r is Ok == image_decodes(source@),
            final(self).spec_path() == old(self).spec_path(),
            r is Err ==> final(self).spec_image() == old(self).spec_image(),
    {
        self.install(decode_image(source.as_slice()))
    }

    fn is_loaded(&self) -> (loaded: bool)
        ensures
            loaded,
    {
        proof {
            use_type_invariant(self);
        }
        self.image.is_some()
    }
}

/// The source text of a shader, with the path of the file it came from.
pub struct ShaderResource {
    path: std::path::PathBuf,
    generic_metadata: GenericMetadata,
    id: String,
    shader: Option<String>,
}

impl ShaderResource {
    #[verifier::type_invariant]
    spec fn loaded(self) -> bool {
        self.shader is Some
    }

    /// The source text.
    pub closed spec fn spec_source(&self) -> Seq<char> {
        self.shader.unwrap()@
    }

    /// The path of the shader's file.
    pub closed spec fn spec_path(&self) -> std::path::PathBuf {
        self.path
    }

    /// A shader resource named `id` for the file at `path`, whose text is
    /// `source`.
    pub fn new(id: String, path: std::path::PathBuf, source: String) -> (res: Self)
        ensures
            res.spec_id() == id@,
            res.spec_path() == path,
            res.spec_source() == source@,
    {
        Self { path, generic_metadata: GenericMetadata {  }, id, shader: Some(source) }
    }

    /// The source text.
    pub fn get(&self) -> (source: &String)
        ensures
            source@ == self.spec_source(),
    {
        proof {
            use_type_invariant(self);
        }
        self.shader.as_ref().unwrap()
    }

    /// The path of the shader's file.
    pub fn path(&self) -> (path: &std::path::PathBuf)
        ensures
            *path == self.spec_path(),
    {
        &self.path
    }
}

impl Resource for ShaderResource {
    type Source = String;

    closed spec fn spec_id(&self) -> Seq<char> {
        self.id@
    }

    fn get_generic_metadata(&self) -> GenericMetadata {
        self.generic_metadata
    }

    fn id(&self) -> (id: &String) {
        &self.id
    }

    /// Takes `source` as the new text. This never fails.
    fn reload(&mut self, source: String) -> (r: Result<ReloadInfo, ResourceError>)
        ensures
            r is Ok,
            final(self).spec_path() == old(self).spec_path(),
            final(self).spec_source() == source@,
    {
        self.shader = Some(source);
        Ok(ReloadInfo {  })
    }

    fn is_loaded(&self) -> (loaded: bool)
        ensures
            loaded,
    {
        proof {
            use_type_invariant(self);
        }
        self.shader.is_some()
    }
}

/// A resource of any kind that the table can hold.
pub enum AnyResource {
    Image(ImageResource),
    Shader(ShaderResource),
}

/// Whether `needle` occurs in `hay` as a run of consecutive characters.
pub open spec fn is_substring(needle: Seq<char>, hay: Seq<char>) -> bool {
    exists|i: int|
        0 <= i && i + needle.len() <= hay.len() && #[trigger] hay.subrange(i, i + needle.len())
            == needle
}

/// Whether every one of `filters` occurs in `id`.
pub open spec fn id_matches(id: Seq<char>, filters: Seq<Seq<char>>) -> bool {
    forall|k: int| 0 <= k < filters.len() ==> is_substring(#[trigger] filters[k], id)
}

/// Whether the entry is marked as an image and cannot be handed out as one.
pub open spec fn mislabeled_image(entry: (ResType, AnyResource)) -> bool {
    entry.0 == ResType::Image && !(entry.1 is Image)
}

/// Whether the entry is marked as a shader and cannot be handed out as one.
pub open spec fn mislabeled_shader(entry: (ResType, AnyResource)) -> bool {
    entry.0 == ResType::Shader && !(entry.1 is Shader)
}

/// The images among the first `n` of `ids` that are marked as images and
/// whose name holds every filter, in the order of `ids`.
pub open spec fn images_matching(
    ids: Seq<Seq<char>>,
    entries: Map<Seq<char>, (ResType, AnyResource)>,
    filters: Seq<Seq<char>>,
    n: nat,
) -> Seq<ImageResource>
    decreases n,
{
    if n == 0 {
        Seq::empty()
    } else {
        let rest = images_matching(ids, entries, filters, (n - 1) as nat);
        let id = ids[n - 1];
        if entries[id].0 == ResType::Image && id_matches(id, filters) {
            rest.push(entries[id].1->Image_0)
        } else {
            rest
        }
    }
}

/// Tests with std's `str::contains` whether `needle` occurs in `hay`: true
/// exactly when some run of consecutive characters of `hay` equals `needle`.
#[verifier::external_body]
fn str_contains(hay: &str, needle: &str) -> (found: bool)
    ensures
        found == is_substring(needle@, hay@),
{
    hay.contains(needle)
}

/// The names of `filters` as sequences of characters.
pub open spec fn filter_names(filters: Seq<String>) -> Seq<Seq<char>> {
    Seq::new(filters.len(), |k: int| filters[k]@)
}

/// Table of resources by name. Each entry is marked with a kind.
pub struct ResourceManager {
    ids: Vec<String>,
    resources: StringHashMap<(ResType, AnyResource)>,
}

impl View for ResourceManager {
    type V = Map<Seq<char>, (ResType, AnyResource)>;

    closed spec fn view(&self) -> Map<Seq<char>, (ResType, AnyResource)> {
        self.resources@
    }
}

impl Default for ResourceManager {
    fn default() -> (r: Self)
        ensures
            r.wf(),
            r@ == Map::<Seq<char>, (ResType, AnyResource)>::empty(),
            r.spec_ids() == Seq::<Seq<char>>::empty(),
    {
        ResourceManager::new()
    }
}

impl ResourceManager {
    /// The names in the table, in the order in which they first came in.
    pub closed spec fn spec_ids(&self) -> Seq<Seq<char>> {
        Seq::new(self.ids@.len(), |i: int| self.ids@[i]@)
    }

    /// The list of names holds each name of the table once.
    pub open spec fn wf(&self) -> bool {
        &&& self.spec_ids().no_duplicates()
        &&& forall|id: Seq<char>| self@.contains_key(id) <==> self.spec_ids().contains(id)
    }

    /// An empty table.
    pub fn new() -> (r: Self)
        ensures
            r.wf(),
            r@ == Map::<Seq<char>, (ResType, AnyResource)>::empty(),
            r.spec_ids() == Seq::<Seq<char>>::empty(),
    {
        let r = Self { ids: Vec::new(), resources: StringHashMap::new() };
        assert(r.spec_ids() =~= Seq::<Seq<char>>::empty());
        r
    }

    /// Puts `res` into the table under the name `id`, marked as `res_type`.
    /// An entry that had the name is replaced.
    pub fn add_resource(&mut self, id: String, res_type: ResType, res: AnyResource)
        requires
            old(self).wf(),
        ensures
            final(self).wf(),
            final(self)@ == old(self)@.insert(id@, (res_type, res)),
            final(self).spec_ids() == if old(self)@.contains_key(id@) {
                old(self).spec_ids()
            } else {
                old(self).spec_ids().push(id@)
            },
    {
        let ghost before = self.spec_ids();
        if !self.resources.contains_key(id.as_str()) {
            self.ids.push(id.clone());
            proof {
                assert(self.spec_ids() =~= before.push(id@));
                assert forall|name: Seq<char>| before.push(id@).contains(name) <==> (
                before.contains(name) || name == id@) by {
                    if before.contains(name) {
                        let k = before.index_of(name);
                        assert(before.push(id@)[k] == name);
                    }
                    if name == id@ {
                        assert(before.push(id@)[before.len() as int] == name);
                    }
                    if before.push(id@).contains(name) {
                        let k = before.push(id@).index_of(name);
                        if k < before.len() {
                            assert(before[k] == name);
                        }
                    }
                }
                assert(!before.contains(id@));
            }
        }
        self.resources.insert(id, (res_type, res));
        proof {
            let after = self.spec_ids();
            assert forall|name: Seq<char>| self@.contains_key(name) <==> after.contains(
                name,
            ) by {
                if name == id@ {
                    if old(self)@.contains_key(id@) {
                        assert(before.contains(id@));
                    }
                } else {
                    assert(self@.contains_key(name) == old(self)@.contains_key(name));
                    assert(old(self)@.contains_key(name) <==> before.contains(name));
                }
            }
            assert(after.no_duplicates()) by {
                if !old(self)@.contains_key(id@) {
                    assert forall|a: int, b: int|
                        0 <= a < after.len() && 0 <= b < after.len() && a != b implies after[a]
                        != after[b] by {
                        if a < before.len() {
                            assert(before.contains(after[a]));
                        }
                        if b < before.len() {
                            assert(before.contains(after[b]));
                        }
                    }
                }
            }
        }
    }

    /// The image under the name `id`, if there is an entry of that name and
    /// it is marked as an image.
    pub fn get_image(&self, id: &str) -> (r: Option<&ImageResource>)
        requires
            self@.contains_key(id@) ==> !mislabeled_image(self@[id@]),
        ensures
            match r {
                Some(image) => self@.contains_key(id@) && self@[id@].0 == ResType::Image
                    && self@[id@].1 == AnyResource::Image(*image),
                None => !self@.contains_key(id@) || self@[id@].0 != ResType::Image,
            },
    {
        match self.resources.get(id) {
            Some(entry) => {
                if entry.0 != ResType::Image {
                    return None;
                }
                match &entry.1 {
                    AnyResource::Image(image) => Some(image),
                    AnyResource::Shader(_) => None,
                }
            },
            None => None,
        }
    }

    /// The shader under the name `id`, if there is an entry of that name and
    /// it is marked as a shader.
    pub fn get_shader(&self, id: &str) -> (r: Option<&ShaderResource>)
        requires
            self@.contains_key(id@) ==> !mislabeled_shader(self@[id@]),
        ensures
            match r {
                Some(shader) => self@.contains_key(id@) && self@[id@].0 == ResType::Shader
                    && self@[id@].1 == AnyResource::Shader(*shader),
                None => !self@.contains_key(id@) || self@[id@].0 != ResType::Shader,
            },
    {
        match self.resources.get(id) {
            Some(entry) => {
                if entry.0 != ResType::Shader {
                    return None;
                }
                match &entry.1 {
                    AnyResource::Shader(shader) => Some(shader),
                    AnyResource::Image(_) => None,
                }
            },
            None => None,
        }
    }

    /// The images whose entry is marked as an image and whose name holds
    /// every one of `filters`, in the order in which the names first came in.
    pub fn find_images(&self, filters: Vec<String>) -> (images: Vec<&ImageResource>)
        requires
            self.wf(),
            forall|id: Seq<char>|
                self@.contains_key(id) ==> !mislabeled_image(#[trigger] self@[id]),
        ensures
            images@.len() == images_matching(
                self.spec_ids(),
                self@,
                filter_names(filters@),
                self.spec_ids().len(),
            ).len(),
            forall|k: int|
                0 <= k < images@.len() ==> *(#[trigger] images@[k]) == images_matching(
                    self.spec_ids(),
                    self@,
                    filter_names(filters@),
                    self.spec_ids().len(),
                )[k],
    {
        let mut images: Vec<&ImageResource> = Vec::new();
        let ghost names = filter_names(filters@);
        let mut i: usize = 0;
        while i < self.ids.len()
            invariant
                self.wf(),
                forall|id: Seq<char>|
                    self@.contains_key(id) ==> !mislabeled_image(#[trigger] self@[id]),
                i <= self.ids@.len(),
                self.ids@.len() == self.spec_ids().len(),
                names == filter_names(filters@),
                images@.len() == images_matching(self.spec_ids(), self@, names, i as nat).len(),
                forall|k: int|
                    0 <= k < images@.len() ==> *(#[trigger] images@[k]) == images_matching(
                        self.spec_ids(),
                        self@,
                        names,
                        i as nat,
                    )[k],
            decreases self.ids@.len() - i,
        {
            let id = self.ids[i].as_str();
            assert(id@ == self.spec_ids()[i as int]);
            assert(self.spec_ids().contains(id@));
            let mut contains_all = true;
            let mut k: usize = 0;
            while k < filters.len()
                invariant
                    k <= filters@.len(),
                    names == filter_names(filters@),
                    contains_all == (forall|j: int|
                        0 <= j < k ==> is_substring(#[trigger] names[j], id@)),
                decreases filters@.len() - k,
            {
                let found = str_contains(id, filters[k].as_str());
                assert(names[k as int] == filters@[k as int]@);
                contains_all = contains_all && found;
                k = k + 1;
            }
            assert(contains_all == id_matches(id@, names));
            if contains_all {
                match self.get_image(id) {
                    Some(image) => {
                        images.push(image);
                    },
                    None => {},
                }
            }
            i = i + 1;
        }
        images
    }
}

} // verus!
