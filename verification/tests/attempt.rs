use double_mapped_buffer::attempt::next_step;
use double_mapped_buffer::{Attempt, DoubleMappedBufferError, Step};

#[test]
fn a_mapping_ends_the_attempts() {
    assert_eq!(next_step(1, 6, Attempt::Mapped(0x1000)), Step::Mapped(0x1000));
    assert_eq!(next_step(6, 6, Attempt::Mapped(0x7000)), Step::Mapped(0x7000));
}

#[test]
fn a_failed_allocation_ends_the_attempts() {
    assert_eq!(
        next_step(1, 6, Attempt::OutOfMemory),
        Step::Failed(DoubleMappedBufferError::OutOfMemory)
    );
}

#[test]
fn a_collision_is_tried_again_while_attempts_are_left() {
    for made in 1..6usize {
        assert_eq!(next_step(made, 6, Attempt::Collision), Step::Retry);
    }
    assert_eq!(
        next_step(6, 6, Attempt::Collision),
        Step::Failed(DoubleMappedBufferError::MappingFailed)
    );
    assert_eq!(
        next_step(7, 6, Attempt::Collision),
        Step::Failed(DoubleMappedBufferError::MappingFailed)
    );
    assert_eq!(
        next_step(1, 1, Attempt::Collision),
        Step::Failed(DoubleMappedBufferError::MappingFailed)
    );
    assert_eq!(
        next_step(1, 0, Attempt::Collision),
        Step::Failed(DoubleMappedBufferError::MappingFailed)
    );
}

#[test]
fn attempts_run_until_a_place_is_free() {
    let outcomes = [Attempt::Collision, Attempt::Collision, Attempt::Mapped(0x4000_0000)];
    let mut made: usize = 0;
    let mut last = Step::Retry;
    for outcome in outcomes {
        made += 1;
        last = next_step(made, 5, outcome);
        if last != Step::Retry {
            break;
        }
    }
    assert_eq!(made, 3);
    assert_eq!(last, Step::Mapped(0x4000_0000));
}
