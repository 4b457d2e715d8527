use null::api::{bearer_header, destroy_url, retweets, status_url, timeline_params, unretweet_url, Tweet};

fn tweet(id: u64, retweeted_status: Option<Tweet>) -> Tweet {
    Tweet {
        id,
        created_at: "Thu Apr 06 15:28:43 +0000 2017".to_string(),
        text: format!("tweet {}", id),
        retweeted_status: Box::new(retweeted_status),
    }
}

fn pairs(params: &[(String, String)]) -> Vec<(&str, &str)> {
    params.iter().map(|(k, v)| (k.as_str(), v.as_str())).collect()
}

#[test]
fn retweets_are_kept_in_their_order() {
    let tweets = vec![
        tweet(1, None),
        tweet(2, Some(tweet(20, None))),
        tweet(3, None),
        tweet(4, Some(tweet(40, Some(tweet(400, None))))),
        tweet(5, Some(tweet(50, None))),
    ];
    let ids: Vec<u64> = retweets(tweets).iter().map(|t| t.id).collect();
    assert_eq!(ids, vec![2, 4, 5]);
    assert!(retweets(vec![tweet(1, None)]).is_empty());
    assert!(retweets(Vec::new()).is_empty());
}

#[test]
fn a_tweet_with_a_retweeted_status_is_a_retweet() {
    assert!(tweet(2, Some(tweet(20, None))).retweeted());
    assert!(!tweet(1, None).retweeted());
}

#[test]
fn timeline_parameters_without_paging() {
    let params = timeline_params("name", false, None);
    assert_eq!(
        pairs(&params),
        vec![("include_rts", "false"), ("trim_user", "true"), ("screen_name", "name")]
    );
}

#[test]
fn timeline_parameters_with_paging() {
    let params = timeline_params("n m", true, Some(18446744073709551615));
    assert_eq!(
        pairs(&params),
        vec![
            ("include_rts", "true"),
            ("trim_user", "true"),
            ("screen_name", "n m"),
            ("max_id", "18446744073709551615")
        ]
    );
    assert_eq!(pairs(&timeline_params("", true, Some(0)))[3], ("max_id", "0"));
}

#[test]
fn bearer_header_is_the_word_and_the_token() {
    assert_eq!(bearer_header("abc"), "Bearer abc");
    assert_eq!(bearer_header(""), "Bearer ");
}

#[test]
fn status_addresses_end_in_the_id() {
    assert_eq!(destroy_url(42), "https://api.twitter.com/1.1/statuses/destroy/42.json");
    assert_eq!(unretweet_url(1007), "https://api.twitter.com/1.1/statuses/unretweet/1007.json");
    assert_eq!(status_url("show", 0), "https://api.twitter.com/1.1/statuses/show/0.json");
}
