use calibration::{Person, Rectangle, first_word};

#[test]
fn first_word_stops_at_the_first_space() {
    assert_eq!(first_word("hello world sadd"), "hello");
    assert_eq!(first_word(&"hello world"[0..6]), "hello");
    assert_eq!(first_word("hello"), "hello");
    assert_eq!(first_word(""), "");
    assert_eq!(first_word(" lead"), "");
}

#[test]
fn square_has_equal_sides() {
    let sq = Rectangle::square(3);
    assert_eq!(sq.width, 3);
    assert_eq!(sq.height, 3);
}

#[test]
fn person_new_keeps_name_and_age() {
    let p = Person::new("Mark".to_string(), 31);
    assert_eq!(p.name, "Mark");
    assert_eq!(p.age, 31);
}

#[test]
fn people_sort_by_name_then_by_age_descending() {
    let mut people = vec![
        Person::new("Mark".to_string(), 31),
        Person::new("Noe".to_string(), 23),
        Person::new("Tomi".to_string(), 32),
    ];
    people.sort();
    assert_eq!(
        people,
        vec![
            Person::new("Mark".to_string(), 31),
            Person::new("Noe".to_string(), 23),
            Person::new("Tomi".to_string(), 32),
        ]
    );
    people.sort_by(|a, b| b.age.cmp(&a.age));
    assert_eq!(
        people,
        vec![
            Person::new("Tomi".to_string(), 32),
            Person::new("Mark".to_string(), 31),
            Person::new("Noe".to_string(), 23),
        ]
    );
}

#[test]
fn sort_vec_integers() {
    let mut vec: Vec<i32> = vec![1, 4, 5, 2, 31];
    vec.sort();
    assert_eq!(vec, vec![1, 2, 4, 5, 31]);
}

#[test]
fn sort_vec_floats() {
    let mut vec = vec![1.2, 3.4, 2.3, 5.5, 1.1112, 2.0];
    vec.sort_by(|a: &f64, b: &f64| a.partial_cmp(b).unwrap());
    assert_eq!(vec, vec![1.1112, 1.2, 2.0, 2.3, 3.4, 5.5]);
}
