use vstd::prelude::*;

verus! {

/// The sentinel `parent_id` that marks a post as a root of its own thread.
pub open spec fn root_sentinel() -> Seq<char> {
    seq!['0']
}

/// A stored post: the sole entity of the board.  A root post has
/// `parent_id == "0"`; a reply carries the id of the root it belongs to.
pub struct Post {
    pub id: String,
    pub parent_id: String,
    pub title: String,
    pub message: String,
    pub attachment: Option<String>,
    pub last_activity: u64,
}

/// Mathematical view of a post: each text field as a sequence of characters.
pub struct PostView {
    pub id: Seq<char>,
    pub parent_id: Seq<char>,
    pub title: Seq<char>,
    pub message: Seq<char>,
    pub attachment: Option<Seq<char>>,
    pub last_activity: u64,
}

impl View for Post {
    type V = PostView;

    open spec fn view(&self) -> PostView {
        PostView {
            id: self.id@,
            parent_id: self.parent_id@,
            title: self.title@,
            message: self.message@,
            attachment: match self.attachment {
                Some(a) => Some(a@),
                None => None,
            },
            last_activity: self.last_activity,
        }
    }
}

impl PostView {
    /// Whether the post is a root of its own thread.
    pub open spec fn is_root(self) -> bool {
        self.parent_id == root_sentinel()
    }
}

impl Clone for Post {
    fn clone(&self) -> (r: Self)
        ensures
            r@ == self@,
    {
        let r = Post {
            id: self.id.clone(),
            parent_id: self.parent_id.clone(),
            title: self.title.clone(),
            message: self.message.clone(),
            attachment: match &self.attachment {
                Some(a) => Some(a.clone()),
                None => None,
            },
            last_activity: self.last_activity,
        };
        assert(r@ == self@);
        r
    }
}

/// The views of a sequence of posts.
pub open spec fn views_of(ps: Seq<Post>) -> Seq<PostView> {
    ps.map_values(|p: Post| p@)
}

} // verus!
