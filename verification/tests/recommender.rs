use taggenator::recommender::TagRecommender;

#[test]
fn tag_recommender_basic() {
    let all_tags = vec![
        "some:prefix:a".to_string(),
        "prefix:a".to_string(),
        "prefix:a b".to_string(),
        "prefix:a b c".to_string(),
        "prefix:H-i".to_string(),
        "prefix:jk".to_string(),
        "not a match".to_string(),
    ];

    let existing_tags = vec!["prefix:a b".to_string()];

    let location = "[H-i] a b c d e-f[]/g.\\j k".to_string();

    let correct_answer = vec![
        "prefix:a".to_string(),
        "some:prefix:a".to_string(),
        "prefix:a b c".to_string(),
        "prefix:H-i".to_string(),
        "prefix:jk".to_string(),
    ];

    let recommender = TagRecommender::new(&all_tags).unwrap();
    let answer = recommender.recommend_from_location(&location, &existing_tags);

    assert_eq!(answer.len(), correct_answer.len());
    for tag in correct_answer {
        assert_eq!(answer.contains(&tag), true);
    }
}

#[test]
fn extended() {
    let all_tags = vec!["beginning".to_string(), "ending".to_string()];

    let existing_tags: Vec<String> = vec![];

    let location = "beginning &#39;s ending.ext".to_string();

    let correct_answer = vec!["beginning".to_string(), "ending".to_string()];

    let recommender = TagRecommender::new(&all_tags).unwrap();
    let answer = recommender.recommend_from_location(&location, &existing_tags);

    assert_eq!(answer.len(), correct_answer.len());
    for tag in correct_answer {
        assert_eq!(answer.contains(&tag), true);
    }
}

#[test]
fn recommendations_leave_out_existing_tags() {
    let all_tags = vec!["Sunset".to_string(), "beach".to_string()];
    let existing = vec!["beach".to_string()];
    let recommender = TagRecommender::new(&all_tags).unwrap();
    let answer = recommender.recommend_from_location(&"./Beach/sunset_01.jpg".to_string(), &existing);
    assert_eq!(answer, vec!["sunset".to_string()]);
}

#[test]
fn added_tag_is_recommended() {
    let mut recommender = TagRecommender::new(&vec![]).unwrap();
    assert!(recommender.recommend_from_location(&"./red car.png".to_string(), &vec![]).is_empty());
    recommender.add_tag(&"color:Red".to_string());
    let answer = recommender.recommend_from_location(&"./red car.png".to_string(), &vec![]);
    assert_eq!(answer, vec!["color:Red".to_string()]);
}

#[test]
fn grabbag_values_recommend() {
    let recommender = TagRecommender::new(&vec!["artist:Some One".to_string()]).unwrap();
    let answer = recommender.recommend_from_grabbag(vec!["some".to_string(), "one".to_string()], &vec![]);
    assert_eq!(answer, vec!["artist:Some One".to_string()]);
}
