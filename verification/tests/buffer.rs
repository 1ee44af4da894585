use lxr_core::plan::lxr::buffer::BufferPool;

fn filled(capacity: usize, values: std::ops::Range<i32>) -> BufferPool<i32> {
    let mut pool = BufferPool::new(capacity);
    let mut local = pool.local_buffer();
    for i in values {
        local.push(&mut pool, i);
    }
    local.close(&mut pool);
    pool
}

#[test]
fn single_thread_collects_all_elements() {
    let mut pool = filled(4, 0..10);

    let final_buffers = pool.into_final_buffers();
    let mut values: Vec<_> = final_buffers.into_iter().collect();
    values.sort();

    assert_eq!(values, (0..10).collect::<Vec<_>>());
}

#[test]
fn multi_thread_collects_all_elements() {
    let mut pool = BufferPool::new(8);

    // Four producers that take turns.
    let mut locals = Vec::new();
    for _ in 0..4 {
        locals.push(pool.local_buffer());
    }
    for i in 0..25 {
        for (tid, local) in locals.iter_mut().enumerate() {
            local.push(&mut pool, (tid, i));
        }
    }
    for local in locals {
        local.close(&mut pool);
    }

    let final_buffers = pool.into_final_buffers();
    let values: Vec<_> = final_buffers.into_iter().collect();

    assert_eq!(values.len(), 100);

    let mut sorted = values;
    sorted.sort();
    let expected: Vec<_> = (0..4).flat_map(|tid| (0..25).map(move |i| (tid, i))).collect();
    assert_eq!(sorted, expected);
}

#[test]
fn exact_full_buffers_work() {
    let mut pool = filled(4, 0..8);

    let final_buffers = pool.into_final_buffers();
    let mut values: Vec<_> = final_buffers.into_iter().collect();
    values.sort();

    assert_eq!(values, (0..8).collect::<Vec<_>>());
}

#[test]
fn into_final_buffers_empties_pool() {
    let mut pool = filled(4, 0..6);

    let final_buffers = pool.into_final_buffers();
    let mut values: Vec<_> = final_buffers.into_iter().collect();
    values.sort();
    assert_eq!(values, (0..6).collect::<Vec<_>>());

    {
        let mut local = pool.local_buffer();
        for i in 10..13 {
            local.push(&mut pool, i);
        }
        local.close(&mut pool);
    }

    let final_buffers = pool.into_final_buffers();
    let mut values: Vec<_> = final_buffers.into_iter().collect();
    values.sort();
    assert_eq!(values, vec![10, 11, 12]);
}

#[test]
fn iter_mut_can_modify_without_removing() {
    let mut pool = filled(3, 0..7);

    let mut final_buffers = pool.into_final_buffers();
    let mut it = final_buffers.iter_mut();

    while let Some(elem) = it.next() {
        *elem *= 2;
    }

    let mut values: Vec<_> = final_buffers.into_iter().collect();
    values.sort();

    assert_eq!(values, vec![0, 2, 4, 6, 8, 10, 12]);
}

#[test]
fn iter_mut_can_swap_remove_while_iterating() {
    let mut pool = filled(3, 0..10);

    let mut final_buffers = pool.into_final_buffers();
    let mut it = final_buffers.iter_mut();

    while let Some(elem) = it.next() {
        if *elem % 2 == 1 {
            let removed = it.swap_remove_current();
            assert_eq!(removed % 2, 1);
        }
    }

    let mut values: Vec<_> = final_buffers.into_iter().collect();
    values.sort();

    assert_eq!(values, vec![0, 2, 4, 6, 8]);
}

#[test]
fn iter_mut_can_remove_everything() {
    let mut pool = filled(2, 0..6);

    let mut final_buffers = pool.into_final_buffers();
    let mut it = final_buffers.iter_mut();

    while let Some(_) = it.next() {
        it.swap_remove_current();
    }

    assert!(final_buffers.is_empty());
    assert_eq!(final_buffers.len_buffers(), 0);

    let values: Vec<_> = final_buffers.into_iter().collect();
    assert!(values.is_empty());
}

#[test]
fn for_each_visits_all_elements_once() {
    let mut pool = filled(4, 1..6);

    let final_buffers = pool.into_final_buffers();

    let sum = final_buffers.for_each(0, |sum: i32, x: i32| sum + x);

    assert_eq!(sum, 15);
}

#[test]
fn into_vecs_exposes_underlying_buffers() {
    let mut pool = filled(4, 0..10);

    let buffers = pool.into_final_buffers().into_vecs();
    let total_len: usize = buffers.iter().map(Vec::len).sum();

    assert_eq!(total_len, 10);
    assert!(buffers.iter().all(|b| !b.is_empty()));
}

#[test]
fn extend_pushes_in_order() {
    let mut pool = BufferPool::new(3);
    let mut local = pool.local_buffer();
    local.extend(&mut pool, vec![1, 2, 3, 4, 5]);
    local.close(&mut pool);
    assert_eq!(pool.buffer_capacity(), 3);
    let buffers = pool.into_final_buffers();
    assert_eq!(buffers.len(), 5);
    assert_eq!(buffers.into_vecs(), vec![vec![1, 2, 3], vec![4, 5]]);
}

#[test]
fn partly_filled_buffer_is_picked_up() {
    let mut pool = BufferPool::new(4);
    let mut first = pool.local_buffer();
    first.push(&mut pool, 1);
    first.close(&mut pool);
    let mut second = pool.local_buffer();
    second.push(&mut pool, 2);
    second.close(&mut pool);
    assert_eq!(pool.into_final_buffers().into_vecs(), vec![vec![1, 2]]);
}

#[test]
fn producers_come_and_go() {
    let mut pool = BufferPool::new(2);
    let mut first = pool.local_buffer();
    first.push(&mut pool, 1);
    let mut second = pool.local_buffer();
    second.push(&mut pool, 2);
    first.push(&mut pool, 3);
    first.push(&mut pool, 1);
    first.close(&mut pool);
    let mut third = pool.local_buffer();
    third.push(&mut pool, 4);
    second.close(&mut pool);
    let fourth = pool.local_buffer();
    third.push(&mut pool, 5);
    third.close(&mut pool);
    fourth.close(&mut pool);
    let buffers = pool.into_final_buffers();
    let mut values = Vec::new();
    for buffer in buffers.into_vecs() {
        assert!(1 <= buffer.len() && buffer.len() <= 2);
        values.extend(buffer);
    }
    values.sort();
    assert_eq!(values, vec![1, 1, 2, 3, 4, 5]);
}

#[test]
fn walk_visits_each_element_once() {
    let mut pool = filled(3, 0..8);
    let mut buffers = pool.into_final_buffers();
    let mut it = buffers.iter_mut();
    let mut seen = Vec::new();
    while let Some(elem) = it.next() {
        seen.push(*elem);
        match *elem % 3 {
            0 => {
                it.swap_remove_current();
            }
            1 => *elem += 100,
            _ => {}
        }
    }
    assert!(it.next().is_none());
    assert!(it.next().is_none());
    seen.sort();
    assert_eq!(seen, (0..8).collect::<Vec<_>>());
    let mut left: Vec<_> = buffers.into_iter().collect();
    left.sort();
    assert_eq!(left, vec![2, 5, 101, 104, 107]);
}
