use tsfile::{IoTDBValue, Statistics, TSDataType};

#[test]
fn int32_single_sample_statistics() {
    let mut stats = Statistics::new(TSDataType::INT32);
    stats.update(1, &IoTDBValue::INT(13));
    match stats {
        Statistics::Int32 {
            count,
            start_time,
            end_time,
            min_value,
            max_value,
            first_value,
            last_value,
            sum_value,
        } => {
            assert_eq!(count, 1);
            assert_eq!(start_time, 1);
            assert_eq!(end_time, 1);
            assert_eq!(min_value, 13);
            assert_eq!(max_value, 13);
            assert_eq!(first_value, 13);
            assert_eq!(last_value, 13);
            assert_eq!(sum_value, 13);
        }
        _ => panic!("wrong statistics kind"),
    }
}

#[test]
fn int64_single_sample_statistics() {
    let mut stats = Statistics::new(TSDataType::INT64);
    stats.update(1, &IoTDBValue::LONG(14));
    match stats {
        Statistics::Int64 {
            count,
            start_time,
            end_time,
            min_value,
            max_value,
            first_value,
            last_value,
            sum_bits,
        } => {
            assert_eq!(count, 1);
            assert_eq!(start_time, 1);
            assert_eq!(end_time, 1);
            assert_eq!(min_value, 14);
            assert_eq!(max_value, 14);
            assert_eq!(first_value, 14);
            assert_eq!(last_value, 14);
            assert_eq!(sum_bits, (14.0f64).to_bits());
        }
        _ => panic!("wrong statistics kind"),
    }
}

#[test]
fn float_single_sample_statistics() {
    let mut stats = Statistics::new(TSDataType::FLOAT);
    stats.update(1, &IoTDBValue::FLOAT((15.0f32).to_bits()));
    match stats {
        Statistics::Float {
            count,
            start_time,
            end_time,
            min_bits,
            max_bits,
            first_bits,
            last_bits,
            sum_bits,
        } => {
            assert_eq!(count, 1);
            assert_eq!(start_time, 1);
            assert_eq!(end_time, 1);
            assert_eq!(min_bits, (15.0f32).to_bits());
            assert_eq!(max_bits, (15.0f32).to_bits());
            assert_eq!(first_bits, (15.0f32).to_bits());
            assert_eq!(last_bits, (15.0f32).to_bits());
            assert_eq!(sum_bits, (15.0f64).to_bits());
        }
        _ => panic!("wrong statistics kind"),
    }
}

#[test]
fn int32_running_statistics() {
    let mut stats = Statistics::new(TSDataType::INT32);
    stats.update(1, &IoTDBValue::INT(13));
    stats.update(10, &IoTDBValue::INT(14));
    stats.update(100, &IoTDBValue::INT(15));
    match stats {
        Statistics::Int32 {
            count,
            start_time,
            end_time,
            min_value,
            max_value,
            first_value,
            last_value,
            sum_value,
        } => {
            assert_eq!(count, 3);
            assert_eq!(start_time, 1);
            assert_eq!(end_time, 100);
            assert_eq!(min_value, 13);
            assert_eq!(max_value, 15);
            assert_eq!(first_value, 13);
            assert_eq!(last_value, 15);
            assert_eq!(sum_value, 42);
        }
        _ => panic!("wrong statistics kind"),
    }
}

#[test]
fn merge_combines_disjoint_runs() {
    let mut a = Statistics::new(TSDataType::INT32);
    a.update(1, &IoTDBValue::INT(5));
    a.update(2, &IoTDBValue::INT(9));
    let mut b = Statistics::new(TSDataType::INT32);
    b.update(10, &IoTDBValue::INT(1));
    b.update(20, &IoTDBValue::INT(7));

    let ab = a.merge(&b);
    let ba = b.merge(&a);
    assert_eq!(ab, ba);
    match ab {
        Statistics::Int32 {
            count,
            start_time,
            end_time,
            min_value,
            max_value,
            first_value,
            last_value,
            sum_value,
        } => {
            assert_eq!(count, 4);
            assert_eq!(start_time, 1);
            assert_eq!(end_time, 20);
            assert_eq!(min_value, 1);
            assert_eq!(max_value, 9);
            assert_eq!(first_value, 5);
            assert_eq!(last_value, 7);
            assert_eq!(sum_value, 22);
        }
        _ => panic!("wrong statistics kind"),
    }
}

#[test]
fn merge_is_associative_over_disjoint_runs() {
    let mut a = Statistics::new(TSDataType::INT32);
    a.update(1, &IoTDBValue::INT(3));
    let mut b = Statistics::new(TSDataType::INT32);
    b.update(10, &IoTDBValue::INT(-4));
    let mut c = Statistics::new(TSDataType::INT32);
    c.update(100, &IoTDBValue::INT(11));

    assert_eq!(a.merge(&b).merge(&c), a.merge(&b.merge(&c)));
    assert_eq!(c.merge(&a).merge(&b), c.merge(&a.merge(&b)));
}

#[test]
fn merge_with_empty_is_identity() {
    let empty = Statistics::new(TSDataType::INT32);
    let mut a = Statistics::new(TSDataType::INT32);
    a.update(4, &IoTDBValue::INT(8));
    assert_eq!(empty.merge(&a), a);
    assert_eq!(a.merge(&empty), a);
}
