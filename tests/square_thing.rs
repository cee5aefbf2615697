use markdown_html::square_thing::sq_in_rect;

fn testing(lng: i32, wdth: i32, exp: Option<Vec<i32>>) {
    assert_eq!(sq_in_rect(lng, wdth), exp)
}

#[test]
fn tests_sq_in_rect() {
    testing(5, 3, Some(vec![3, 2, 1, 1]));
    testing(3, 5, Some(vec![3, 2, 1, 1]));
    testing(5, 5, None);
}

#[test]
fn unit_strip_becomes_unit_squares() {
    testing(4, 1, Some(vec![1, 1, 1, 1]));
    testing(1, 1, None);
}

#[test]
fn remainder_that_is_a_square_ends_the_cut() {
    testing(20, 14, Some(vec![14, 6, 6, 2, 2]));
    testing(4, 2, Some(vec![2]));
}

#[test]
fn equal_sides_give_none_whatever_their_sign() {
    testing(0, 0, None);
    testing(-2, -2, None);
}
