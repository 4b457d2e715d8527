//! What the REST client asks for and what it gets back.

use crate::text::{append_text, decimal, decimal_text, utf8_to_string};
use vstd::prelude::*;
use vstd::string::StringSliceAdditionalSpecFns;
use vstd::utf8::{encode_utf8, valid_utf8};

verus! {

/// A status as the timeline returns it.
#[derive(Debug)]
pub struct Tweet {
    pub id: u64,
    pub created_at: String,
    pub text: String,
    /// The status that this one passes on, if it is a retweet.
    pub retweeted_status: Box<Option<Tweet>>,
}

impl Tweet {
    /// Whether the status passes another one on.
    pub open spec fn is_retweet(&self) -> bool {
        *self.retweeted_status is Some
    }

    /// Whether the status passes another one on.
    pub fn retweeted(&self) -> (r: bool)
        ensures
            r == self.is_retweet(),
    {
        match &*self.retweeted_status {
            Some(_) => true,
            None => false,
        }
    }
}

/// The retweets among `tweets`, in their order.
pub fn retweets(tweets: Vec<Tweet>) -> (r: Vec<Tweet>)
    ensures
        r@ == tweets@.filter(|t: Tweet| t.is_retweet()),
{
    let ghost all = tweets@;
    let ghost keep = |t: Tweet| t.is_retweet();
    let mut out: Vec<Tweet> = Vec::new();
    for tweet in it: tweets
        invariant
            it.seq() == all,
            keep == |t: Tweet| t.is_retweet(),
            out@ == all.take(it.index()).filter(keep),
    {
        proof {
            reveal(Seq::filter);
            assert(all.take(it.index() + 1).drop_last() =~= all.take(it.index()));
            assert(all.take(it.index() + 1).last() == tweet);
        }
        if tweet.retweeted() {
            out.push(tweet);
        }
    }
    proof {
        assert(all.take(all.len() as int) =~= all);
    }
    out
}

/// `true` or `false`, spelled out.
pub open spec fn flag_text(flag: bool) -> Seq<u8> {
    if flag {
        "true".spec_bytes()
    } else {
        "false".spec_bytes()
    }
}

/// The query of a request for the user's timeline: whether retweets are
/// wanted, users trimmed to their ids, the screen name and, when paging,
/// the largest id still wanted.
pub open spec fn timeline_query(screen_name: Seq<u8>, include_rts: bool, max_id: Option<u64>) -> Seq<
    (Seq<u8>, Seq<u8>),
> {
    let fixed = seq![
        ("include_rts".spec_bytes(), flag_text(include_rts)),
        ("trim_user".spec_bytes(), "true".spec_bytes()),
        ("screen_name".spec_bytes(), screen_name),
    ];
    match max_id {
        Some(id) => fixed.push(("max_id".spec_bytes(), decimal(id as int))),
        None => fixed,
    }
}

/// Names and values as bytes.
pub open spec fn query_bytes(params: Seq<(String, String)>) -> Seq<(Seq<u8>, Seq<u8>)> {
    Seq::new(params.len(), |i: int| (encode_utf8(params[i].0@), encode_utf8(params[i].1@)))
}

/// The parameters of a request for the timeline of `screen_name`.
pub fn timeline_params(screen_name: &str, include_rts: bool, max_id: Option<u64>) -> (r: Vec<
    (String, String),
>)
    ensures
        query_bytes(r@) == timeline_query(screen_name.spec_bytes(), include_rts, max_id),
{
    let mut params: Vec<(String, String)> = Vec::new();
    let flag = if include_rts {
        "true"
    } else {
        "false"
    };
    params.push(("include_rts".to_owned(), flag.to_owned()));
    params.push(("trim_user".to_owned(), "true".to_owned()));
    params.push(("screen_name".to_owned(), screen_name.to_owned()));
    if let Some(id) = max_id {
        params.push(("max_id".to_owned(), decimal_text(id)));
    }
    proof {
        assert(query_bytes(params@) =~= timeline_query(
            screen_name.spec_bytes(),
            include_rts,
            max_id,
        ));
    }
    params
}

/// The `Authorization` header for reading: `Bearer` and the token.
pub fn bearer_header(token: &str) -> (r: String)
    ensures
        encode_utf8(r@) == "Bearer ".spec_bytes() + token.spec_bytes(),
{
    let mut out: Vec<u8> = Vec::new();
    assert(valid_utf8(out@));
    append_text(&mut out, "Bearer ");
    append_text(&mut out, token);
    assert(out@ =~= "Bearer ".spec_bytes() + token.spec_bytes());
    utf8_to_string(out)
}

/// The address of what is done to one status: `action` is the last part of
/// the path before the id.
pub open spec fn status_address(action: Seq<u8>, id: u64) -> Seq<u8> {
    "https://api.twitter.com/1.1/statuses/".spec_bytes() + action + "/".spec_bytes() + decimal(
        id as int,
    ) + ".json".spec_bytes()
}

/// The address to `POST` to for `action` on the status `id`.
pub fn status_url(action: &str, id: u64) -> (r: String)
    ensures
        encode_utf8(r@) == status_address(action.spec_bytes(), id),
{
    let number = decimal_text(id);
    let mut out: Vec<u8> = Vec::new();
    assert(valid_utf8(out@));
    append_text(&mut out, "https://api.twitter.com/1.1/statuses/");
    append_text(&mut out, action);
    append_text(&mut out, "/");
    append_text(&mut out, number.as_str());
    append_text(&mut out, ".json");
    utf8_to_string(out)
}

/// The address that deletes the status `id`.
pub fn destroy_url(id: u64) -> (r: String)
    ensures
        encode_utf8(r@) == status_address("destroy".spec_bytes(), id),
{
    status_url("destroy", id)
}

/// The address that takes back the retweet of the status `id`.
pub fn unretweet_url(id: u64) -> (r: String)
    ensures
        encode_utf8(r@) == status_address("unretweet".spec_bytes(), id),
{
    status_url("unretweet", id)
}

} // verus!
