//! Posts and what belongs to them.
use crate::table::Table;
use crate::text::same_str;
use bytes::Bytes;
use vstd::prelude::*;
use vstd::string::*;

verus! {

/// A post, rendered.
#[derive(Debug, Clone)]
pub struct Post {
    pub name: String,
    pub title: String,
    pub abs: Option<String>,
    pub text: String,
    pub published: bool,
}

/// The media type of an image of a post, by the extension of its file name.
pub open spec fn image_mime(ext: Seq<char>) -> Option<Seq<char>> {
    if ext == "png"@ {
        Some("image/png"@)
    } else if ext == "jpg"@ || ext == "jpeg"@ {
        Some("image/jpeg"@)
    } else {
        None
    }
}

/// The media type of an image of a post, by the extension of its file name:
/// `png`, `jpg` and `jpeg` are known.
pub fn mime(ext: &str) -> (r: Option<&'static str>)
    ensures
        match r {
            Some(m) => image_mime(ext@) == Some(m@),
            None => image_mime(ext@) is None,
        },
{
    if same_str(ext, "png") {
        Some("image/png")
    } else if same_str(ext, "jpg") || same_str(ext, "jpeg") {
        Some("image/jpeg")
    } else {
        None
    }
}

/// `bytes::Bytes`: the bytes of an image. They are kept and handed out, and
/// never looked into.
#[verifier::external_type_specification]
#[verifier::external_body]
pub struct ExBytes(bytes::Bytes);

/// Whether `name` is the name of a Markdown file: whether it ends with `.md`.
pub open spec fn is_markdown_name(name: Seq<char>) -> bool {
    name.len() >= 3 && name.subrange(name.len() - 3, name.len() as int) == ".md"@
}

/// Whether `name` is the name of a Markdown file.
pub fn is_markdown(name: &str) -> (r: bool)
    ensures
        r == is_markdown_name(name@),
{
    let len = name.unicode_len();
    proof {
        reveal_strlit(".md");
    }
    if len < 3 {
        return false;
    }
    let r = name.get_char(len - 3) == '.' && name.get_char(len - 2) == 'm' && name.get_char(len - 1)
        == 'd';
    proof {
        let tail = name@.subrange(len - 3, len as int);
        assert(tail[0] == name@[len - 3]);
        assert(tail[1] == name@[len - 2]);
        assert(tail[2] == name@[len - 1]);
        if r {
            assert(tail =~= ".md"@);
        }
    }
    r
}

/// The name under which an image of a post is kept: the name of the post, a
/// slash, and the name of the file.
pub open spec fn compound(post_name: Seq<char>, image_name: Seq<char>) -> Seq<char> {
    post_name + "/"@ + image_name
}

/// The name under which an image of a post is kept.
pub fn compound_name(post_name: &str, image_name: &str) -> (r: String)
    ensures
        r@ == compound(post_name@, image_name@),
{
    let mut r = String::from_str(post_name);
    r.append("/");
    r.append(image_name);
    r
}

/// The extension of a file name: what follows its last dot, if it has one.
pub open spec fn extension(name: Seq<char>) -> Option<Seq<char>>
    decreases name.len(),
{
    if name.len() == 0 {
        None
    } else if name.last() == '.' {
        Some(Seq::empty())
    } else {
        match extension(name.drop_last()) {
            Some(ext) => Some(ext.push(name.last())),
            None => None,
        }
    }
}

/// The extension of a name is what follows a dot after which no dot comes, and
/// a name without a dot has none.
proof fn lemma_extension(name: Seq<char>, dot: int)
    requires
        -1 <= dot < name.len(),
        dot >= 0 ==> name[dot] == '.',
        forall|j: int| dot < j < name.len() ==> #[trigger] name[j] != '.',
    ensures
        extension(name) == if dot >= 0 {
            Some(name.subrange(dot + 1, name.len() as int))
        } else {
            None
        },
    decreases name.len(),
{
    if name.len() == 0 {
    } else if dot == name.len() - 1 {
        assert(name.subrange(dot + 1, name.len() as int) =~= Seq::<char>::empty());
    } else {
        let front = name.drop_last();
        assert(name[name.len() - 1] != '.');
        assert forall|j: int| dot < j < front.len() implies #[trigger] front[j] != '.' by {
            assert(front[j] == name[j]);
        }
        lemma_extension(front, dot);
        if dot >= 0 {
            assert(front.subrange(dot + 1, front.len() as int).push(name.last())
                =~= name.subrange(dot + 1, name.len() as int));
        }
    }
}

/// The extension of a file name, if it has one.
pub fn extension_of(name: &str) -> (r: Option<&str>)
    ensures
        match r {
            Some(ext) => extension(name@) == Some(ext@),
            None => extension(name@) is None,
        },
{
    let len = name.unicode_len();
    let mut i: usize = len;
    while i > 0 && name.get_char(i - 1) != '.'
        invariant
            len == name@.len(),
            0 <= i <= len,
            forall|j: int| i <= j < len ==> #[trigger] name@[j] != '.',
        decreases i,
    {
        i -= 1;
    }
    proof {
        lemma_extension(name@, i as int - 1);
    }
    if i == 0 {
        None
    } else {
        Some(name.substring_char(i, len))
    }
}

/// The media type of the image with the given file name, if the name has an
/// extension and the extension is known.
pub open spec fn image_type(image_name: Seq<char>) -> Option<Seq<char>> {
    match extension(image_name) {
        Some(ext) => image_mime(ext),
        None => None,
    }
}

/// The media type of the image with the given file name.
pub fn image_type_of(image_name: &str) -> (r: Option<&'static str>)
    ensures
        match r {
            Some(m) => image_type(image_name@) == Some(m@),
            None => image_type(image_name@) is None,
        },
{
    match extension_of(image_name) {
        Some(ext) => mime(ext),
        None => None,
    }
}

/// A copy of a post.
fn copy_post(post: &Post) -> (r: Post)
    ensures
        r == *post,
{
    Post {
        name: post.name.clone(),
        title: post.title.clone(),
        abs: match &post.abs {
            Some(abs) => Some(abs.clone()),
            None => None,
        },
        text: post.text.clone(),
        published: post.published,
    }
}

/// The posts of the site and their images.
pub struct Posts {
    post_list: Vec<String>,
    posts: Table<Post>,
    images: Table<Bytes>,
}

impl Posts {
    /// The names of the posts, in the order in which they are listed.
    pub closed spec fn list(&self) -> Seq<Seq<char>> {
        Seq::new(self.post_list@.len(), |i: int| self.post_list@[i]@)
    }

    /// The post of each name.
    pub closed spec fn posts(&self) -> Map<Seq<char>, Post> {
        self.posts@
    }

    /// The image of each compound name.
    pub closed spec fn images(&self) -> Map<Seq<char>, Bytes> {
        self.images@
    }

    /// Whether every name that is listed has a post.
    pub closed spec fn wf(&self) -> bool {
        &&& self.posts.wf()
        &&& self.images.wf()
        &&& forall|i: int| 0 <= i < self.list().len() ==> self.posts().contains_key(#[trigger] self.list()[i])
    }

    /// No posts and no images.
    pub fn new() -> (r: Self)
        ensures
            r.wf(),
            r.list() == Seq::<Seq<char>>::empty(),
            r.posts() == Map::<Seq<char>, Post>::empty(),
            r.images() == Map::<Seq<char>, Bytes>::empty(),
    {
        let r = Posts { post_list: Vec::new(), posts: Table::new(), images: Table::new() };
        assert(r.list() =~= Seq::<Seq<char>>::empty());
        r
    }

    /// Takes in a post under `name`, and lists the name last. A post that was
    /// there under that name is replaced.
    pub fn add_post(&mut self, name: String, post: Post)
        requires
            old(self).wf(),
        ensures
            final(self).wf(),
            final(self).list() == old(self).list().push(name@),
            final(self).posts() == old(self).posts().insert(name@, post),
            final(self).images() == old(self).images(),
    {
        self.posts.insert(name.clone(), post);
        self.post_list.push(name);
        assert(self.list() =~= old(self).list().push(name@));
        assert forall|i: int| 0 <= i < self.list().len() implies self.posts().contains_key(
            #[trigger] self.list()[i],
        ) by {
            if i < old(self).list().len() {
                assert(self.list()[i] == old(self).list()[i]);
            }
        }
    }

    /// Takes in an image under its compound name. An image that was there
    /// under that name is replaced.
    pub fn add_image(&mut self, compound_name: String, bytes: Bytes)
        requires
            old(self).wf(),
        ensures
            final(self).wf(),
            final(self).list() == old(self).list(),
            final(self).posts() == old(self).posts(),
            final(self).images() == old(self).images().insert(compound_name@, bytes),
    {
        self.images.insert(compound_name, bytes);
        assert(self.list() == old(self).list());
        assert forall|i: int| 0 <= i < self.list().len() implies self.posts().contains_key(
            #[trigger] self.list()[i],
        ) by {
            assert(self.list()[i] == old(self).list()[i]);
        }
    }

    /// Turns the list round, so that the post that was listed last comes
    /// first.
    pub fn reverse(&mut self)
        requires
            old(self).wf(),
        ensures
            final(self).wf(),
            final(self).list() == old(self).list().reverse(),
            final(self).posts() == old(self).posts(),
            final(self).images() == old(self).images(),
    {
        let ghost before = self.list();
        let mut turned: Vec<String> = Vec::new();
        while self.post_list.len() > 0
            invariant
                self.posts == old(self).posts,
                self.images == old(self).images,
                self.list().len() + turned@.len() == before.len(),
                forall|i: int| 0 <= i < self.list().len() ==> self.list()[i] == before[i],
                forall|i: int|
                    0 <= i < turned@.len() ==> (#[trigger] turned@[i])@ == before[before.len() - 1
                        - i],
            decreases self.post_list@.len(),
        {
            let ghost len = self.list().len();
            let name = self.post_list.pop().unwrap();
            assert(name@ == before[len - 1]) by {
                assert(old(self).list().len() >= 0);
                assert(self.list().len() == len - 1);
            }
            turned.push(name);
        }
        self.post_list = turned;
        assert(self.list() =~= before.reverse());
        assert forall|i: int| 0 <= i < self.list().len() implies self.posts().contains_key(
            #[trigger] self.list()[i],
        ) by {
            assert(self.list()[i] == before[before.len() - 1 - i]);
        }
    }

    /// The post with the given name.
    pub fn get_post(&self, name: &str) -> (r: Option<&Post>)
        requires
            self.wf(),
        ensures
            match r {
                Some(post) => self.posts().contains_key(name@) && *post == self.posts()[name@],
                None => !self.posts().contains_key(name@),
            },
    {
        self.posts.get(name)
    }

    /// Whether the post `post_name` has the image `image_name`.
    pub fn has_image(&self, post_name: &str, image_name: &str) -> (r: bool)
        requires
            self.wf(),
        ensures
            r == self.images().contains_key(compound(post_name@, image_name@)),
    {
        let compound_name = compound_name(post_name, image_name);
        self.images.get(compound_name.as_str()).is_some()
    }

    /// The image `image_name` of the post `post_name`, with its media type.
    /// An image that is there must have a name from which its type is known.
    pub fn get_image(&self, post_name: &str, image_name: &str) -> (r: Option<(&Bytes, &'static str)>)
        requires
            self.wf(),
            self.images().contains_key(compound(post_name@, image_name@)) ==> image_type(
                image_name@,
            ) is Some,
        ensures
            match r {
                Some((bytes, m)) => {
                    &&& self.images().contains_key(compound(post_name@, image_name@))
                    &&& *bytes == self.images()[compound(post_name@, image_name@)]
                    &&& image_type(image_name@) == Some(m@)
                },
                None => !self.images().contains_key(compound(post_name@, image_name@)),
            },
    {
        let compound_name = compound_name(post_name, image_name);
        match self.images.get(compound_name.as_str()) {
            Some(bytes) => {
                // The name of an image that is there gives its type.
                let m = image_type_of(image_name).unwrap();
                Some((bytes, m))
            },
            None => None,
        }
    }

    /// Copies of the first three posts of the list, or of all where there are
    /// fewer.
    pub fn previews(&self) -> (r: Vec<Post>)
        requires
            self.wf(),
        ensures
            r@.len() == if self.list().len() < 3 {
                self.list().len()
            } else {
                3
            },
            forall|i: int| 0 <= i < r@.len() ==> #[trigger] r@[i] == self.posts()[self.list()[i]],
    {
        let mut r: Vec<Post> = Vec::new();
        let mut i: usize = 0;
        while i < self.post_list.len() && i < 3
            invariant
                self.wf(),
                0 <= i <= self.post_list@.len(),
                i <= 3,
                r@.len() == i,
                forall|j: int| 0 <= j < i ==> #[trigger] r@[j] == self.posts()[self.list()[j]],
            decreases self.post_list@.len() - i,
        {
            assert(self.posts().contains_key(self.list()[i as int]));
            let post = self.posts.get(self.post_list[i].as_str()).unwrap();
            r.push(copy_post(post));
            i += 1;
        }
        r
    }
}

} // verus!
