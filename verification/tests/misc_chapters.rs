use rust_from_python::async_basics::{fetch_plan, sum_below, work_result};
use rust_from_python::features::FeatureReport;
use rust_from_python::resource_management::{ConnectionPool, FileGuard, MyBox};
use rust_from_python::slices::split_at_mut_safe;
use rust_from_python::threads::fib;

#[test]
fn file_guard_handles_and_lines() {
    let g = FileGuard::open("/var/log/app.log", 2);
    assert_eq!(g.handle_id, 2042);
    assert_eq!(g.creation_order, 2);
    assert_eq!(g.read_line(), "[模拟读取] 文件 /var/log/app.log 中的一行数据...");
}

#[test]
fn connection_pool_queries() {
    let mut pool = ConnectionPool::connect("postgres://localhost:5432/mydb");
    assert!(pool.is_active());
    assert_eq!(
        pool.query("SELECT 1").unwrap(),
        "查询结果: [{id: 1, name: \"Alice\"}, {id: 2, name: \"Bob\"}] (来源: postgres://localhost:5432/mydb)"
    );
    pool.close();
    assert!(!pool.is_active());
    assert_eq!(pool.query("SELECT 1").unwrap_err(), "连接池已关闭，无法执行查询");
}

#[test]
fn my_box_derefs() {
    let b = MyBox::new(String::from("你好，Rust!"));
    let s: &String = &b;
    assert_eq!(s, "你好，Rust!");
    let nested = MyBox::new(MyBox::new(5));
    assert_eq!(**nested, 5);
}

#[test]
fn fibonacci() {
    assert_eq!(fib(0), 0);
    assert_eq!(fib(1), 1);
    assert_eq!(fib(10), 55);
    assert_eq!(fib(30), 832040);
}

#[test]
fn feature_report() {
    let r = FeatureReport::new(true, false, true);
    assert!(r.basic_enabled && !r.advanced_enabled && r.json_output_enabled);
    assert_eq!(r.compile_time, "2026-06-05");
}

#[test]
fn split_halves_share_the_slice() {
    let mut data = vec![1, 2, 3, 4, 5, 6];
    {
        let (left, right) = split_at_mut_safe(&mut data, 3);
        assert_eq!(left, &[1, 2, 3]);
        assert_eq!(right, &[4, 5, 6]);
        left[0] = 100;
        right[0] = 200;
    }
    assert_eq!(data, vec![100, 2, 3, 200, 5, 6]);
    let (l, r) = split_at_mut_safe(&mut data, 0);
    assert!(l.is_empty());
    assert_eq!(r.len(), 6);
}

#[test]
fn async_example_values() {
    assert_eq!(work_result("任务A"), "任务A 的结果");
    assert_eq!(fetch_plan(0), (0, Err("无效的 ID: 0".to_string())));
    assert_eq!(fetch_plan(1), (50, Ok("数据块 #1: 用户信息".to_string())));
    assert_eq!(fetch_plan(3), (300, Ok("数据块 #3: 统计报表".to_string())));
    assert_eq!(fetch_plan(42), (100, Ok("数据块 #42: 默认数据".to_string())));
    assert_eq!(sum_below(10_000_000), 49_999_995_000_000);
    assert_eq!(sum_below(0), 0);
    assert_eq!(sum_below(1), 0);
}
