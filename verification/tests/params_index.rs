use clink::params::create_index;
use clink::params::get_default_params;
use clink::params::is_hit;

#[test]
fn existing_keys() {
    let index = create_index(&get_default_params());
    for param in get_default_params() {
        assert!(is_hit(&param, &index));
    }
}

#[test]
fn not_exiting_keys() {
    let index = create_index(&get_default_params());
    assert!(!is_hit("not_exiting_key", &index));
}
