use hn_client::traitsamples::Animal;
use hn_client::traitsamples::Dog;
use hn_client::traitsamples::Sheep;

#[test]
fn talk_test() {
    let bella: Dog = Animal::new("Bella");

    println!("{}", bella.talk());
}

#[test]
fn traitsamples_talk_test() {
    let molly: Sheep = Animal::new("Molly");

    println!("{}", molly.talk());
}

#[test]
fn talk_test_both_animals() {
    let bella: Dog = Animal::new("Bella");
    let molly: Sheep = Animal::new("Molly");

    println!("{}", bella.talk());
    println!("{}", molly.talk());
}

#[test]
fn dog_talks_with_the_default_sentence() {
    let bella: Dog = Animal::new("Bella");

    assert_eq!(bella.talk(), "Bella says Woof!");
    assert_eq!(bella.name(), "Bella");
    assert_eq!(bella.noise(), "Woof!");
}

#[test]
fn shearing_changes_the_noise() {
    let mut molly: Sheep = Animal::new("Molly");

    assert!(!molly.is_naked());
    assert_eq!(molly.talk(), "Molly pauses briefly... baaaaah!");

    molly.shear();

    assert!(molly.is_naked());
    assert_eq!(molly.talk(), "Molly pauses briefly... baaaaah?");

    molly.shear();

    assert!(molly.is_naked());
}
