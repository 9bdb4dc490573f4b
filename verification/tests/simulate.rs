use rand_distr::{Distribution, Normal};

use price_buckets::simulate::simulate_path;
use price_buckets::store::Price;

fn price(v: f64) -> Price {
    Price { bits: v.to_bits() }
}

fn value(p: Price) -> f64 {
    f64::from_bits(p.bits)
}

// One mean-reversion step:
// price[t+1] = price[t] + theta * (mu - price[t]) * dt + sigma * noise * sqrt(dt)
fn ou_step(theta: f64, mu: f64, sigma: f64, dt: f64) -> impl Fn(Price, Price) -> Price {
    move |last: Price, n: Price| {
        let last_price = value(last);
        let noise = value(n);
        let d_price = theta * (mu - last_price) * dt + sigma * noise * dt.sqrt();
        price(last_price + d_price)
    }
}

fn normal_noise(steps: usize) -> Vec<Price> {
    let mut rng = rand::thread_rng();
    let normal = Normal::new(0.0, 1.0).unwrap();
    (0..steps)
        .map(|_| {
            let n: f64 = normal.sample(&mut rng);
            price(n)
        })
        .collect()
}

#[test]
fn test_ou_process_output_length() {
    let initial_price = 100.0;
    let theta = 0.15;
    let mu = 100.0;
    let sigma = 0.2;
    let dt = 1.0 / 252.0;
    let steps = 60;

    let noise = normal_noise(steps);
    let prices = simulate_path(price(initial_price), &noise, ou_step(theta, mu, sigma, dt));

    assert_eq!(prices.len(), steps + 1, "Output length should be steps + 1");
}

#[test]
fn test_ou_process_initial_price() {
    let initial_price = 50.0;
    let theta = 0.1;
    let mu = 50.0;
    let sigma = 0.2;
    let dt = 1.0 / 252.0;
    let steps = 100;

    let noise = normal_noise(steps);
    let prices = simulate_path(price(initial_price), &noise, ou_step(theta, mu, sigma, dt));

    assert_eq!(
        value(prices[0]),
        initial_price,
        "The first price should match the initial price"
    );
}

#[test]
fn test_ou_process_mean_reversion_trend() {
    let initial_price = 80.0;
    let theta = 0.2;
    let mu = 100.0;
    let sigma = 0.1;
    let dt = 1.0 / 252.0;
    let steps = 100;

    let noise = normal_noise(steps);
    let prices = simulate_path(price(initial_price), &noise, ou_step(theta, mu, sigma, dt));

    let final_price = value(*prices.last().unwrap());
    assert!(
        (final_price - mu).abs() < (initial_price - mu).abs(),
        "The final price should be closer to the mean"
    );
}

#[test]
fn zero_dispersion_path_is_deterministic_and_monotone() {
    // With sigma = 0 the noise draws cannot matter: two runs with
    // different noise sequences give the same path, and the distance to
    // the mean shrinks every step while theta * dt stays inside (0, 2).
    let theta = 0.5;
    let mu = 100.0;
    let dt = 0.25;
    let steps = 40;

    let first = simulate_path(price(60.0), &normal_noise(steps), ou_step(theta, mu, 0.0, dt));
    let second = simulate_path(price(60.0), &normal_noise(steps), ou_step(theta, mu, 0.0, dt));
    assert_eq!(first, second);

    for t in 0..steps {
        let before = (value(first[t]) - mu).abs();
        let after = (value(first[t + 1]) - mu).abs();
        assert!(after < before, "distance to the mean must shrink");
    }
}

#[test]
fn scenario_sixty_steps_from_one_hundred() {
    let noise = normal_noise(60);
    let prices = simulate_path(
        price(100.0),
        &noise,
        ou_step(0.15, 100.0, 0.2, 1.0 / 252.0),
    );
    assert_eq!(prices.len(), 61);
    assert_eq!(value(prices[0]), 100.0);
}
