use oxide_train::profile::{
    aggregated_kernels, budget_of, enforce_kernel_budgets, standing, FunctionProfile,
    KernelBudget, NoopProfiler, Standing,
};
use oxide_train::{flash, gemm};

fn profile(registers: i32, spill_bytes: i32) -> FunctionProfile {
    FunctionProfile { registers, spill_bytes, max_threads: 1024 }
}

fn budgets() -> Vec<KernelBudget> {
    vec![
        KernelBudget { name: "a", max_registers: 100, max_spill_bytes: 16 },
        KernelBudget { name: "b", max_registers: 10, max_spill_bytes: 0 },
        KernelBudget { name: "a", max_registers: 1, max_spill_bytes: 1 },
    ]
}

#[test]
fn the_first_budget_of_a_name_is_the_one() {
    assert_eq!(budget_of("a", &budgets()), Some(0));
    assert_eq!(budget_of("b", &budgets()), Some(1));
    assert_eq!(budget_of("c", &budgets()), None);
    assert_eq!(budget_of("aa", &budgets()), None);
}

#[test]
fn a_kernel_stands_over_under_or_at_its_pin() {
    assert_eq!(standing("a", profile(100, 16), &budgets()), Standing::Pinned(0));
    assert_eq!(standing("a", profile(101, 0), &budgets()), Standing::Over(0));
    assert_eq!(standing("a", profile(1, 17), &budgets()), Standing::Over(0));
    assert_eq!(standing("a", profile(99, 16), &budgets()), Standing::Under(0));
    assert_eq!(standing("a", profile(100, 15), &budgets()), Standing::Under(0));
    assert_eq!(standing("c", profile(255, 9999), &budgets()), Standing::Unpinned);
}

#[test]
fn budgets_fail_with_every_kernel_over() {
    let fine = [("a", profile(100, 16)), ("c", profile(255, 9999)), ("b", profile(9, 0))];
    assert_eq!(enforce_kernel_budgets(&fine, &budgets()), Ok(()));
    let over = [("b", profile(11, 0)), ("a", profile(3, 3)), ("b", profile(10, 1))];
    assert_eq!(enforce_kernel_budgets(&over, &budgets()), Err(vec![0, 2]));
    assert_eq!(enforce_kernel_budgets(&[], &budgets()), Ok(()));
}

#[test]
fn the_shipped_kernels_are_pinned() {
    let tensor_core = gemm::host::kernel_budgets();
    let names: Vec<&str> = tensor_core.iter().map(|budget| budget.name).collect();
    assert_eq!(
        names,
        vec![
            "gemm_tcgen05_bf16_optimized",
            "gemm_tcgen05_f32_optimized",
            "gemm_tcgen05_f32_accumulate"
        ]
    );
    assert_eq!(standing("gemm_tcgen05_f32_optimized", profile(110, 0), &tensor_core), Standing::Over(1));
    let attention = flash::host::kernel_budgets();
    assert_eq!(standing("forward", profile(246, 1072), &attention), Standing::Pinned(0));
    assert_eq!(standing("backward q", profile(244, 529), &attention), Standing::Over(1));
    assert_eq!(standing("backward kv", profile(200, 528), &attention), Standing::Under(2));
}

#[test]
fn timings_are_grouped_in_first_seen_order() {
    let names = ["gemm", "norm", "gemm", "flash", "norm", "gemm"];
    let grouping = aggregated_kernels(&names);
    assert_eq!(grouping.firsts, vec![0, 1, 3]);
    assert_eq!(grouping.rows, vec![0, 1, 0, 2, 1, 0]);
    let none = aggregated_kernels(&[]);
    assert!(none.firsts.is_empty() && none.rows.is_empty());
}

#[test]
fn a_profiler_that_records_nothing_hands_the_launch_through() {
    let mut profiler = NoopProfiler::default();
    let done: Result<u32, ()> = profiler.measure("launch", || Ok(7));
    assert_eq!(done, Ok(7));
    let failed: Result<u32, &str> = profiler.measure("launch", || Err("lost"));
    assert_eq!(failed, Err("lost"));
}
